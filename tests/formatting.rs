use pest_vars::formatter::minify;
use pest_vars::syntax::{DeclKind, PestParser};

#[test]
fn minify_drops_docs_only() {
    let src = "//! top\n/// about a\na = { \"x\" ~ b }\n/// about b\nb = \"y\"\n";
    assert_eq!(minify(src.to_string()).unwrap(), "\n\na = { \"x\" ~ b }\n\nb = \"y\"\n");
}

#[test]
fn minify_twice_is_once() {
    let src = "/// doc\na = { \"x\" }\n";
    let once = minify(src.to_string()).unwrap();
    assert_eq!(minify(once.clone()).unwrap(), once);
}

#[test]
fn minify_keeps_doc_free_text() {
    let src = "a = { \"x\" } // note\nb = { a }";
    assert_eq!(minify(src.to_string()).unwrap(), src);
}

#[test]
fn minify_reports_syntax_error() {
    assert_eq!(minify("a = {".to_string()), Err(0));
}

#[test]
fn parser_lists_declarations() {
    let ds = PestParser::parse_source("/// d\na = \"v\"\n#include \"f\"\nb = { a }").unwrap();
    let kinds: Vec<DeclKind> = ds.iter().map(|d| d.kind).collect();
    assert_eq!(kinds, vec![DeclKind::Doc, DeclKind::Variable, DeclKind::Include, DeclKind::Rule]);
    assert_eq!((ds[1].lit_start, ds[1].lit_end), (11, 12));
}

#[test]
fn format_changes_layout() {
    let out = pest_vars::formatter::format("a={\"x\"~b}".to_string()).unwrap();
    assert!(out.contains("a = { \"x\" ~ b }"));
}
