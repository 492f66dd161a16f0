use bundler::bundle::{BundleError, Bundler, OutLine};
use bundler::tree::{SourceFile, SourceTree};

fn file(path: &str, lines: &[&str]) -> SourceFile {
    SourceFile {
        path: path.to_string(),
        lines: lines.iter().map(|l| l.to_string()).collect(),
    }
}

fn lines(ls: &[&str]) -> Vec<String> {
    ls.iter().map(|l| l.to_string()).collect()
}

fn demo() -> Bundler {
    let mut b = Bundler::new("src/main.rs", "bundle.rs");
    b.crate_name("demo");
    b
}

#[test]
fn new_bundler_defaults() {
    let b = Bundler::new("src/bin/x.rs", "out.rs");
    assert_eq!(b.binrs_filename, "src/bin/x.rs");
    assert_eq!(b.bundle_filename, "out.rs");
    assert_eq!(b.librs_filename, "src/lib.rs");
    assert_eq!(b.name, "");
    assert!(!b.minify);
}

#[test]
fn setters_change_one_field() {
    let mut b = Bundler::new("a.rs", "b.rs");
    b.minify_set(true);
    assert!(b.minify);
    b.crate_name("demo");
    assert_eq!(b.name, "demo");
    assert!(b.minify);
    b.minify_set(false);
    assert!(!b.minify);
}

#[test]
fn crate_import_inlines_module_and_suppresses_use() {
    let tree = SourceTree {
        files: vec![
            file("src/lib.rs", &["pub mod helpers;"]),
            file("src/helpers.rs", &["pub fn f() {}"]),
        ],
    };
    let entry = lines(&["extern crate demo;", "use demo::helpers;", "fn main() {}"]);
    let out = demo().run(&entry, &tree).unwrap();
    assert_eq!(out, "pub mod helpers {\npub fn f() {}\n}\nfn main() {}\n");
}

#[test]
fn nested_modules_nest_in_declaration_order() {
    let tree = SourceTree {
        files: vec![
            file("src/lib.rs", &["pub mod a;"]),
            file("src/a.rs", &["pub mod b;", "pub fn fa() {}"]),
            file("src/a/b.rs", &["pub fn fb() {}"]),
        ],
    };
    let entry = lines(&["extern crate demo;"]);
    let out = demo().run(&entry, &tree).unwrap();
    assert_eq!(
        out,
        "pub mod a {\npub mod b {\npub fn fb() {}\n}\npub fn fa() {}\n}\n"
    );
}

#[test]
fn missing_module_file_aborts() {
    let tree = SourceTree {
        files: vec![file("src/lib.rs", &["pub mod missing;"])],
    };
    let entry = lines(&["extern crate demo;", "fn main() {}"]);
    assert_eq!(
        demo().run(&entry, &tree),
        Err(BundleError::FileNotFound("src/missing.rs".to_string()))
    );
}

#[test]
fn missing_nested_module_reports_full_path() {
    let tree = SourceTree {
        files: vec![
            file("src/lib.rs", &["pub mod a;"]),
            file("src/a.rs", &["pub mod gone;"]),
        ],
    };
    let entry = lines(&["extern crate demo;"]);
    assert_eq!(
        demo().run(&entry, &tree),
        Err(BundleError::FileNotFound("src/a/gone.rs".to_string()))
    );
}

#[test]
fn missing_library_root_aborts() {
    let tree = SourceTree { files: vec![] };
    let entry = lines(&["extern crate demo;"]);
    assert_eq!(
        demo().run(&entry, &tree),
        Err(BundleError::FileNotFound("src/lib.rs".to_string()))
    );
}

#[test]
fn unrelated_import_is_made_local() {
    let tree = SourceTree {
        files: vec![file("src/lib.rs", &["pub fn g() {}"])],
    };
    let entry = lines(&["extern crate demo;", "use demo::unrelated;"]);
    let out = demo().run(&entry, &tree).unwrap();
    assert_eq!(out, "pub fn g() {}\nuse unrelated;\n");
}

#[test]
fn tests_modules_are_excluded_at_every_depth() {
    let tree = SourceTree {
        files: vec![
            file("src/lib.rs", &["pub mod tests;", "pub mod a;"]),
            file("src/tests.rs", &["fn secret_root() {}"]),
            file("src/a.rs", &["pub mod tests;", "pub fn fa() {}"]),
            file("src/a/tests.rs", &["fn secret_nested() {}"]),
        ],
    };
    let entry = lines(&["extern crate demo;", "use demo::tests;"]);
    let out = demo().run(&entry, &tree).unwrap();
    assert_eq!(out, "pub mod a {\npub fn fa() {}\n}\nuse tests;\n");
    assert!(!out.contains("secret"));
}

#[test]
fn excluded_tests_module_needs_no_file() {
    let tree = SourceTree {
        files: vec![file("src/lib.rs", &["pub mod tests;", "pub fn g() {}"])],
    };
    let entry = lines(&["extern crate demo;"]);
    assert_eq!(demo().run(&entry, &tree).unwrap(), "pub fn g() {}\n");
}

#[test]
fn directory_index_is_second_choice() {
    let tree = SourceTree {
        files: vec![
            file("src/lib.rs", &["pub mod a;", "pub mod b;"]),
            file("src/a/mod.rs", &["fn from_index() {}"]),
            file("src/b/mod.rs", &["fn b_index() {}"]),
            file("src/b.rs", &["fn b_flat() {}"]),
        ],
    };
    let entry = lines(&["extern crate demo;"]);
    let out = demo().run(&entry, &tree).unwrap();
    assert_eq!(
        out,
        "pub mod a {\nfn from_index() {}\n}\npub mod b {\nfn b_flat() {}\n}\n"
    );
}

#[test]
fn use_before_inlining_is_rewritten() {
    let tree = SourceTree {
        files: vec![
            file("src/lib.rs", &["pub mod helpers;"]),
            file("src/helpers.rs", &["pub fn f() {}"]),
        ],
    };
    let entry = lines(&["use demo::helpers;", "extern crate demo;", "use demo::helpers;"]);
    let out = demo().run(&entry, &tree).unwrap();
    assert_eq!(out, "use helpers;\npub mod helpers {\npub fn f() {}\n}\n");
}

#[test]
fn nested_import_path_is_suppressed() {
    let tree = SourceTree {
        files: vec![
            file("src/lib.rs", &["pub mod a;"]),
            file("src/a.rs", &["pub mod b;"]),
            file("src/a/b.rs", &[]),
        ],
    };
    let entry = lines(&["extern crate demo;", "use demo::a::b;", "use demo::b;", "use demo::a;"]);
    let out = demo().run(&entry, &tree).unwrap();
    assert_eq!(out, "pub mod a {\npub mod b {\n}\n}\nuse b;\n");
}

#[test]
fn comments_and_lints_are_dropped_everywhere() {
    let tree = SourceTree {
        files: vec![
            file("src/lib.rs", &["#![warn(missing_docs)]", "// root", "pub mod m;"]),
            file("src/m.rs", &["  // inside", "x"]),
        ],
    };
    let entry = lines(&["#![warn(unused)]", "// top", "extern crate demo;"]);
    let out = demo().run(&entry, &tree).unwrap();
    assert_eq!(out, "pub mod m {\nx\n}\n");
}

#[test]
fn minify_keeps_blocks_and_line_count() {
    let tree = SourceTree {
        files: vec![
            file("src/lib.rs", &["    pub mod m;"]),
            file("src/m.rs", &["    fn f() {", "        1", "    }"]),
        ],
    };
    let entry = lines(&["extern crate demo;", "  use demo::other;", "use demo::other;", "  fn main() {}"]);
    let mut b = demo();
    let plain = b.run(&entry, &tree).unwrap();
    assert_eq!(
        plain,
        "pub mod m {\n    fn f() {\n        1\n    }\n}\n  use demo::other;\nuse other;\n  fn main() {}\n"
    );
    b.minify_set(true);
    let small = b.run(&entry, &tree).unwrap();
    assert_eq!(
        small,
        "pub mod m {\nfn f() {\n1\n}\n}\nuse demo::other;\nuse other;\nfn main() {}\n"
    );
    assert_eq!(plain.lines().count(), small.lines().count());
}

#[test]
fn runs_are_deterministic() {
    let tree = SourceTree {
        files: vec![
            file("src/lib.rs", &["pub mod a;"]),
            file("src/a.rs", &["pub fn fa() {}"]),
        ],
    };
    let entry = lines(&["use demo::a;", "extern crate demo;", "use demo::a;"]);
    let b = demo();
    let first = b.run(&entry, &tree).unwrap();
    let second = b.run(&entry, &tree).unwrap();
    assert_eq!(first, second);
    assert_eq!(first, "use a;\npub mod a {\npub fn fa() {}\n}\n");
}

#[test]
fn module_declarations_in_entry_pass_through() {
    let tree = SourceTree { files: vec![] };
    let entry = lines(&["pub mod local;", "fn main() {}"]);
    assert_eq!(demo().run(&entry, &tree).unwrap(), "pub mod local;\nfn main() {}\n");
}

#[test]
fn expand_gives_structured_lines() {
    let tree = SourceTree {
        files: vec![
            file("src/lib.rs", &["pub mod a;", "fn root() {}"]),
            file("src/a.rs", &["fn fa() {}"]),
        ],
    };
    let entry = lines(&["extern crate demo;"]);
    let out = demo().expand(&entry, &tree).unwrap();
    assert_eq!(
        out,
        vec![
            OutLine::Open("a".to_string()),
            OutLine::Text("fn fa() {}".to_string()),
            OutLine::Close,
            OutLine::Text("fn root() {}".to_string()),
        ]
    );
}

#[test]
fn library_expanded_twice_for_two_imports() {
    let tree = SourceTree {
        files: vec![file("src/lib.rs", &["fn g() {}"])],
    };
    let entry = lines(&["extern crate demo;", "extern crate demo;"]);
    assert_eq!(demo().run(&entry, &tree).unwrap(), "fn g() {}\nfn g() {}\n");
}

#[test]
fn tree_lookup_prefers_first_match() {
    let tree = SourceTree {
        files: vec![file("src/x.rs", &["1"]), file("src/x.rs", &["2"])],
    };
    assert_eq!(tree.find(&"src/x.rs".to_string()), Some(0));
    assert_eq!(tree.find(&"src/y.rs".to_string()), None);
    assert_eq!(tree.find_module(&"x".to_string()), Some(0));
}

#[test]
fn minify_strips_both_ends_of_passed_through_lines() {
    let tree = SourceTree {
        files: vec![
            file("src/lib.rs", &["pub mod m;  "]),
            file("src/m.rs", &["  fn f() {}  ", "x \t"]),
        ],
    };
    let entry = lines(&["extern crate demo;", "  fn main() {} "]);
    let mut b = demo();
    b.minify_set(true);
    let small = b.run(&entry, &tree).unwrap();
    assert_eq!(small, "pub mod m {\nfn f() {}\nx\n}\nfn main() {}\n");
    b.minify_set(false);
    let plain = b.run(&entry, &tree).unwrap();
    assert_eq!(plain, "pub mod m {\n  fn f() {}\nx\n}\n  fn main() {}\n");
}

#[test]
fn trailing_whitespace_is_removed_before_classifying() {
    let tree = SourceTree {
        files: vec![
            file("src/lib.rs", &["pub mod helpers; \t"]),
            file("src/helpers.rs", &["pub fn f() {}   ", "// note  "]),
        ],
    };
    let entry = lines(&["extern crate demo; ", "use demo::helpers;  ", "use demo::other; "]);
    let out = demo().run(&entry, &tree).unwrap();
    assert_eq!(out, "pub mod helpers {\npub fn f() {}\n}\nuse other;\n");
}

#[test]
fn one_minified_line_is_the_trimmed_plain_line() {
    let tree = SourceTree { files: vec![] };
    let entry = lines(&["x "]);
    let mut b = demo();
    assert_eq!(b.run(&entry, &tree).unwrap(), "x\n");
    b.minify_set(true);
    let entry = lines(&["   x  "]);
    assert_eq!(b.run(&entry, &tree).unwrap(), "x\n");
}
