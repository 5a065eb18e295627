use std::path::Path;

use domino::paths::{extension, file_name, is_same_path, join_path, parent_dir, strip_root};
use domino::types::Project;
use domino::utils::{get_package_name_by_path, is_source_file};

const PATHS: &[&str] = &[
    "",
    ".",
    "..",
    "/",
    "//",
    "a",
    "a/",
    "a//",
    "a/.",
    "a/./",
    "a/..",
    "./a",
    "../a",
    ".//a",
    "/a",
    "//a",
    "/./a",
    "/../a",
    "a/b",
    "a//b",
    "a/./b",
    "a/../b",
    "a/b/",
    "a/b/.",
    "a/b/..",
    "/a/b",
    "/a//b/",
    "a.ts",
    "a.ts/",
    "a.ts//",
    "a.ts/.",
    "a.ts/..",
    "./a.ts",
    "dir/a.tsx",
    "dir/a.js/",
    "dir/.jsx",
    "dir/..jsx",
    "dir/a.",
    "dir/a..ts",
    ".ts",
    ".hidden.ts",
    "a.b/c",
    "a.ts/b",
    "libs/core",
    "libs/core/",
    "libs//core",
    "libs/./core",
    "libs/core/index.ts",
    "libs//core//index.ts",
    "libs/core-extra/index.ts",
    "/libs/core/index.ts",
    "./libs/core/index.ts",
    "libs",
    "lib",
    "...",
    "a/.../b",
    "é/ü.ts",
];

#[test]
fn file_names_are_those_of_the_standard_library() {
    for path in PATHS {
        let expected = Path::new(path).file_name().map(|n| n.to_str().unwrap().to_string());
        assert_eq!(file_name(path), expected, "file name of {:?}", path);
    }
}

#[test]
fn extensions_are_those_of_the_standard_library() {
    for path in PATHS {
        let expected = Path::new(path).extension().map(|e| e.to_str().unwrap().to_string());
        let found = extension(path).map(|e| e.into_iter().collect::<String>());
        assert_eq!(found, expected, "extension of {:?}", path);
        let source = matches!(expected.as_deref(), Some("ts") | Some("tsx") | Some("js") | Some("jsx"));
        assert_eq!(is_source_file(path), source, "source file {:?}", path);
    }
}

#[test]
fn parents_are_those_of_the_standard_library() {
    for path in PATHS {
        let expected = Path::new(path).parent().map(|p| p.to_str().unwrap().to_string());
        assert_eq!(parent_dir(path), expected, "parent of {:?}", path);
    }
}

#[test]
fn paths_are_the_same_where_their_components_are() {
    for a in PATHS {
        for b in PATHS {
            assert_eq!(is_same_path(a, b), Path::new(a) == Path::new(b), "{:?} and {:?}", a, b);
        }
    }
}

#[test]
fn owners_are_found_as_the_standard_library_finds_prefixes() {
    for root in PATHS {
        let projects = vec![Project {
            name: "owner".to_string(),
            source_root: root.to_string(),
            ts_config: None,
            implicit_dependencies: vec![],
            targets: vec![],
        }];
        for path in PATHS {
            let expected = Path::new(path).starts_with(root);
            assert_eq!(
                get_package_name_by_path(path, &projects).is_some(),
                expected,
                "{:?} under {:?}",
                path,
                root
            );
        }
    }
}

#[test]
fn what_is_left_below_a_root_is_what_the_standard_library_leaves() {
    for root in PATHS {
        for path in PATHS {
            let expected = Path::new(path)
                .strip_prefix(root)
                .ok()
                .map(|p| p.to_str().unwrap().to_string());
            assert_eq!(strip_root(path, root), expected, "{:?} below {:?}", path, root);
        }
    }
}

#[test]
fn joined_paths_are_those_of_the_standard_library() {
    for base in PATHS {
        for rel in PATHS {
            let expected = Path::new(base).join(rel).to_str().unwrap().to_string();
            assert_eq!(join_path(base, rel), expected, "{:?} joined with {:?}", base, rel);
        }
    }
}
