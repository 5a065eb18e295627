use domino::git::{changed_file_from, clean_path, parse_diff, parse_line_number, split_file_diffs};

#[test]
fn test_parse_diff() {
    let diff = r#"diff --git a/libs/core/src/utils.ts b/libs/core/src/utils.ts
index 1234567..abcdefg 100644
--- a/libs/core/src/utils.ts
+++ b/libs/core/src/utils.ts
@@ -15,0 +16,1 @@ export function findRootNode() {
+  return node.getParent();
@@ -45,1 +46,1 @@ export function getPackageName() {
-  return projects.find(p => p.path === path);
+  return projects.find(({ sourceRoot }) => path.includes(sourceRoot));
diff --git a/libs/nx/src/cli.ts b/libs/nx/src/cli.ts
index 9876543..fedcba9 100644
--- a/libs/nx/src/cli.ts
+++ b/libs/nx/src/cli.ts
@@ -102,0 +103,2 @@ export async function run(): Promise<void> {
+  // New code
+  console.log('test');
"#;

    let result = parse_diff(diff);
    assert_eq!(result.len(), 2);

    assert_eq!(result[0].file_path, "libs/core/src/utils.ts");
    assert_eq!(result[0].changed_lines, vec![16, 46]);

    assert_eq!(result[1].file_path, "libs/nx/src/cli.ts");
    assert_eq!(result[1].changed_lines, vec![103]);
}

#[test]
fn test_parse_diff_empty() {
    let diff = "";
    let result = parse_diff(diff);
    assert_eq!(result.len(), 0);
}

#[test]
fn parse_diff_leaves_out_a_file_without_hunks() {
    let diff = "diff --git a/x.ts b/x.ts\nold mode 100644\nnew mode 100755\ndiff --git a/y.ts b/y.ts\n@@ -1 +1 @@\n-a\n+b\n";
    let result = parse_diff(diff);
    assert_eq!(result.len(), 1);
    assert_eq!(result[0].file_path, "y.ts");
    assert_eq!(result[0].changed_lines, vec![1]);
}

#[test]
fn parse_diff_reads_a_quoted_path() {
    let diff = "diff --git \"a/dir with space/x.ts\" \"b/dir with space/x.ts\"\n@@ -3,2 +7,4 @@\n";
    let result = parse_diff(diff);
    assert_eq!(result.len(), 1);
    assert_eq!(result[0].file_path, "dir with space/x.ts");
    assert_eq!(result[0].changed_lines, vec![7]);
}

#[test]
fn split_file_diffs_drops_what_stands_before_the_first_marker() {
    assert_eq!(split_file_diffs("xdiff --gitAdiff --gitB"), vec!["A", "B"]);
    assert_eq!(split_file_diffs("no marker"), Vec::<String>::new());
    assert_eq!(split_file_diffs("diff --git"), vec![""]);
}

#[test]
fn clean_path_takes_quotes_and_outer_space_away() {
    assert_eq!(clean_path("  \"a b\".ts\t\n"), "a b.ts");
    assert_eq!(clean_path("\u{00a0}x\u{3000}"), "x");
    assert_eq!(clean_path(" \" "), "");
}

#[test]
fn parse_line_number_reads_plain_decimals_only() {
    assert_eq!(parse_line_number("0"), Some(0));
    assert_eq!(parse_line_number("0042"), Some(42));
    assert_eq!(parse_line_number(""), None);
    assert_eq!(parse_line_number("+5"), None);
    assert_eq!(parse_line_number("1a"), None);
    assert_eq!(parse_line_number("١٢"), None);
    assert_eq!(parse_line_number(&usize::MAX.to_string()), Some(usize::MAX));
    assert_eq!(parse_line_number(&format!("{}0", usize::MAX)), None);
    assert_eq!(parse_line_number("99999999999999999999999999"), None);
}

#[test]
fn changed_file_from_needs_a_path_and_a_line() {
    assert!(changed_file_from(&None, &vec![Some((0, "1".to_string()))]).is_none());
    assert!(changed_file_from(&Some("x.ts".to_string()), &vec![]).is_none());
    assert!(changed_file_from(&Some("x.ts".to_string()), &vec![None, Some((4, "x".to_string()))]).is_none());
    let file = changed_file_from(
        &Some(" x.ts ".to_string()),
        &vec![Some((9, "3".to_string())), None, Some((30, "12".to_string()))],
    )
    .unwrap();
    assert_eq!(file.file_path, "x.ts");
    assert_eq!(file.changed_lines, vec![3, 12]);
}
