use bundler::classify::{classify, trimmed_start, LineKind};

#[test]
fn comment_lines_are_comments() {
    assert_eq!(classify("// note", "demo"), LineKind::Comment);
    assert_eq!(classify("    // pub mod a;", "demo"), LineKind::Comment);
    assert_eq!(classify("\t//", "demo"), LineKind::Comment);
}

#[test]
fn lint_attributes_are_recognised() {
    assert_eq!(classify("#![warn(missing_docs)]", "demo"), LineKind::LintAttribute);
    assert_eq!(classify("  #![warn(", "demo"), LineKind::LintAttribute);
    assert_eq!(classify("#[warn(x)]", "demo"), LineKind::Passthrough);
}

#[test]
fn crate_import_must_match_exactly() {
    assert_eq!(classify("extern crate demo;", "demo"), LineKind::CrateImport);
    assert_eq!(classify(" extern crate demo;", "demo"), LineKind::Passthrough);
    assert_eq!(classify("extern crate other;", "demo"), LineKind::Passthrough);
    assert_eq!(classify("extern crate demo; ", "demo"), LineKind::Passthrough);
}

#[test]
fn crate_qualified_use_captures_path() {
    assert_eq!(
        classify("use demo::helpers;", "demo"),
        LineKind::PlainUseOfCrate("helpers".to_string())
    );
    assert_eq!(
        classify("use demo::a::b;", "demo"),
        LineKind::PlainUseOfCrate("a::b".to_string())
    );
    assert_eq!(classify("use demo::;", "demo"), LineKind::PlainUseOfCrate(String::new()));
    assert_eq!(classify("use other::a;", "demo"), LineKind::Passthrough);
    assert_eq!(classify("  use demo::a;", "demo"), LineKind::Passthrough);
    assert_eq!(classify("use demo::a", "demo"), LineKind::Passthrough);
}

#[test]
fn module_declarations_capture_name() {
    assert_eq!(
        classify("pub mod helpers;", "demo"),
        LineKind::ModuleDeclaration("helpers".to_string())
    );
    assert_eq!(
        classify("    pub mod inner;", "demo"),
        LineKind::ModuleDeclaration("inner".to_string())
    );
    assert_eq!(classify("pub mod ;", "demo"), LineKind::Passthrough);
    assert_eq!(classify("mod private;", "demo"), LineKind::Passthrough);
    assert_eq!(classify("pub mod a {", "demo"), LineKind::Passthrough);
}

#[test]
fn plain_lines_pass_through() {
    assert_eq!(classify("fn main() {}", "demo"), LineKind::Passthrough);
    assert_eq!(classify("", "demo"), LineKind::Passthrough);
}

#[test]
fn classification_is_repeatable() {
    let lines = ["// c", "#![warn(x)]", "extern crate demo;", "use demo::a;", "pub mod b;", "x"];
    for l in lines.iter() {
        assert_eq!(classify(l, "demo"), classify(l, "demo"));
    }
}

#[test]
fn trimmed_start_drops_leading_whitespace_only() {
    assert_eq!(trimmed_start("    let x = 1;  "), "let x = 1;  ");
    assert_eq!(trimmed_start("\t\u{a0}a"), "a");
    assert_eq!(trimmed_start("   "), "");
    assert_eq!(trimmed_start("b"), "b");
}

#[test]
fn trimmed_end_drops_trailing_whitespace_only() {
    assert_eq!(bundler::classify::trimmed_end("  a b \t\r"), "  a b");
    assert_eq!(bundler::classify::trimmed_end(" \t"), "");
    assert_eq!(bundler::classify::trimmed_end("c"), "c");
}
