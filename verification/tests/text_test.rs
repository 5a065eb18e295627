use domino::error::DominoError;
use domino::order::{rank_names, NameSet, Rank};
use domino::paths::{extension, file_name, join_path, normalize_path, parent_dir, strip_root};
use domino::profiler::{format_number, Profiler};
use domino::text::{chars_of, push_decimal, str_eq, string_of};

#[test]
fn chars_and_strings_convert_both_ways() {
    assert_eq!(chars_of("aé\n"), vec!['a', 'é', '\n']);
    assert_eq!(string_of(&vec!['x', 'ÿ', '/']), "xÿ/");
    assert_eq!(string_of(&chars_of("proj1/index.ts")), "proj1/index.ts");
    assert_eq!(chars_of(""), Vec::<char>::new());
}

#[test]
fn str_eq_compares_whole_texts() {
    assert!(str_eq("abc", "abc"));
    assert!(str_eq("", ""));
    assert!(!str_eq("abc", "abd"));
    assert!(!str_eq("abc", "ab"));
    assert!(!str_eq("é", "e"));
}

#[test]
fn push_decimal_writes_numbers_without_leading_zeros() {
    let mut out = String::from("n=");
    push_decimal(&mut out, 0);
    push_decimal(&mut out, 907);
    assert_eq!(out, "n=0907");
}

#[test]
fn format_number_groups_by_thousands() {
    assert_eq!(format_number(0), "0");
    assert_eq!(format_number(999), "999");
    assert_eq!(format_number(1000), "1,000");
    assert_eq!(format_number(1002003), "1,002,003");
    assert_eq!(format_number(12345678), "12,345,678");
}

#[test]
fn names_are_ordered_by_their_bytes() {
    assert_eq!(rank_names("a", "b"), Rank::Before);
    assert_eq!(rank_names("b", "a"), Rank::After);
    assert_eq!(rank_names("proj1", "proj1"), Rank::Same);
    assert_eq!(rank_names("proj", "proj1"), Rank::Before);
    assert_eq!(rank_names("", "a"), Rank::Before);
    assert_eq!(rank_names("Z", "a"), Rank::Before);
    assert_eq!(rank_names("z", "é"), Rank::Before);
}

#[test]
fn name_set_keeps_each_name_once_in_order() {
    let mut set = NameSet::new();
    for name in ["proj3", "proj1", "proj2", "proj1", "proj3"] {
        set.insert(name);
    }
    assert_eq!(set.names, vec!["proj1", "proj2", "proj3"]);
    assert!(set.contains("proj2"));
    assert!(!set.contains("proj"));
}

#[test]
fn profiler_counts_only_while_enabled() {
    let mut off = Profiler::new(false);
    assert!(!off.is_enabled());
    off.record_resolution(true, 5);
    off.record_reference_lookup();
    off.record_local_reference(7);
    off.record_reexport_check(1);
    off.record_symbol_extraction(2);
    assert_eq!(off.stats().resolution_calls, 0);
    assert_eq!(off.stats().reference_lookups, 0);
    assert_eq!(off.stats().local_reference_time_ns, 0);

    let mut on = Profiler::new(true);
    assert!(on.is_enabled());
    on.record_resolution(true, 5);
    on.record_resolution(false, 6);
    on.record_reference_lookup();
    on.record_local_reference(7);
    on.record_reexport_check(1);
    on.record_symbol_extraction(2);
    on.record_symbol_extraction(3);
    let stats = on.stats();
    assert_eq!(stats.resolution_calls, 2);
    assert_eq!(stats.resolution_cache_hits, 1);
    assert_eq!(stats.resolution_time_ns, 11);
    assert_eq!(stats.reference_lookups, 1);
    assert_eq!(stats.local_reference_calls, 1);
    assert_eq!(stats.local_reference_time_ns, 7);
    assert_eq!(stats.reexport_checks, 1);
    assert_eq!(stats.reexport_time_ns, 1);
    assert_eq!(stats.symbol_extractions, 2);
    assert_eq!(stats.symbol_extraction_time_ns, 5);
}

#[test]
fn profiler_counters_wrap_around() {
    let mut on = Profiler::new(true);
    on.record_local_reference(u64::MAX);
    on.record_local_reference(3);
    assert_eq!(on.stats().local_reference_time_ns, 2);
    assert_eq!(on.stats().local_reference_calls, 2);
}

#[test]
fn errors_say_what_they_are() {
    assert_eq!(DominoError::Io("x".into()).message(), "IO error: x");
    assert_eq!(DominoError::Regex("x".into()).message(), "Regex error: x");
    assert_eq!(DominoError::Parse("x".into()).message(), "Parse error: x");
    assert_eq!(DominoError::ModuleResolution("x".into()).message(), "Module resolution error: x");
    assert_eq!(DominoError::ProjectNotFound("x".into()).message(), "Project not found: x");
    assert_eq!(DominoError::FileNotFound("a/b.ts".into()).message(), "File not found: a/b.ts");
    assert_eq!(DominoError::InvalidConfig("x".into()).message(), "Invalid configuration: x");
    assert_eq!(DominoError::Semantic("x".into()).message(), "Semantic analysis error: x");
    assert_eq!(DominoError::Other("plain".into()).message(), "plain");
}

#[test]
fn join_path_puts_one_slash_between() {
    assert_eq!(join_path("a/b", "c.ts"), "a/b/c.ts");
    assert_eq!(join_path("a/b/", "c.ts"), "a/b/c.ts");
    assert_eq!(join_path("", "c.ts"), "c.ts");
    assert_eq!(join_path("a", "/abs/c.ts"), "/abs/c.ts");
    assert_eq!(join_path("a", ""), "a/");
    assert_eq!(join_path("a", "./b"), "a/./b");
}

#[test]
fn parent_dir_drops_the_last_component() {
    assert_eq!(parent_dir("a/b/c.ts"), Some("a/b".to_string()));
    assert_eq!(parent_dir("c.ts"), Some("".to_string()));
    assert_eq!(parent_dir("/c.ts"), Some("/".to_string()));
    assert_eq!(parent_dir("/"), None);
    assert_eq!(parent_dir(""), None);
    assert_eq!(parent_dir("a//b/c/"), Some("a//b".to_string()));
    assert_eq!(parent_dir("./a"), Some(".".to_string()));
    assert_eq!(parent_dir("a/.."), Some("a".to_string()));
    assert_eq!(parent_dir("/a/./b"), Some("/a".to_string()));
}

#[test]
fn file_name_is_the_last_component_that_names_something() {
    assert_eq!(file_name("a/b/c.ts"), Some("c.ts".to_string()));
    assert_eq!(file_name("a/b/"), Some("b".to_string()));
    assert_eq!(file_name("a/b/."), Some("b".to_string()));
    assert_eq!(file_name("a/.."), None);
    assert_eq!(file_name("."), None);
    assert_eq!(file_name("/"), None);
    assert_eq!(file_name(""), None);
}

#[test]
fn extension_follows_the_last_dot_of_the_file_name() {
    let chars = |text: &str| Some(text.chars().collect::<Vec<char>>());
    assert_eq!(extension("a/b.tar.gz"), chars("gz"));
    assert_eq!(extension("a.ts/"), chars("ts"));
    assert_eq!(extension("a."), chars(""));
    assert_eq!(extension(".hidden"), None);
    assert_eq!(extension(".hidden.ts"), chars("ts"));
    assert_eq!(extension("a.b/c"), None);
    assert_eq!(extension(".."), None);
}

#[test]
fn strip_root_needs_whole_components() {
    assert_eq!(strip_root("/ws/a/b.ts", "/ws"), Some("a/b.ts".to_string()));
    assert_eq!(strip_root("/ws/a/b.ts", "/ws/"), Some("a/b.ts".to_string()));
    assert_eq!(strip_root("/ws", "/ws"), Some("".to_string()));
    assert_eq!(strip_root("/wsx/a", "/ws"), None);
    assert_eq!(strip_root("/other/a", "/ws"), None);
    assert_eq!(strip_root("a/b", ""), Some("a/b".to_string()));
    assert_eq!(strip_root("/a/b", ""), Some("/a/b".to_string()));
    assert_eq!(strip_root("/ws//a/./b.ts/", "/ws/"), Some("a/./b.ts".to_string()));
    assert_eq!(strip_root("ws/a", "/ws"), None);
    assert_eq!(strip_root("/a/b", "/"), Some("a/b".to_string()));
}

#[test]
fn normalize_path_takes_dots_away() {
    assert_eq!(normalize_path("libs/theme/./colors.css"), "libs/theme/colors.css");
    assert_eq!(normalize_path("src/components/../assets/logo.png"), "src/assets/logo.png");
    assert_eq!(normalize_path("a//b/"), "a/b");
    assert_eq!(normalize_path("/a/./b/../c"), "/a/c");
    assert_eq!(normalize_path("../x"), "../x");
    assert_eq!(normalize_path("a/../../x"), "../x");
    assert_eq!(normalize_path("."), "");
    assert_eq!(normalize_path(""), "");
}
