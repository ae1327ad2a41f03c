use pest_vars::parser::{compile_grammar, missing_file, Grammar};
use pest_vars::resolve::SourceFile;

fn file(path: &str, text: &str) -> SourceFile {
    SourceFile { path: path.to_string(), text: text.to_string() }
}

fn lines(s: &str) -> Vec<String> {
    s.lines().map(|l| l.to_string()).collect()
}

#[test]
fn variable_and_rule_end_to_end() {
    let out = compile_grammar(Grammar::from_source("a = \"x\"\nb = { a }"), &vec![]).unwrap();
    let ls = lines(&out);
    assert!(ls.contains(&"a = { \"x\" }".to_string()));
    assert!(ls.contains(&"b = { a }".to_string()));
    assert_eq!(ls.len(), 2);
}

#[test]
fn unique_names_all_emitted() {
    let src = "x = \"1\"\ny = \"two\"\nr1 = { x ~ y }\nr2 = _{ \"}\" | r1 }\nr3 = @{ ASCII_DIGIT+ }\n";
    let out = compile_grammar(Grammar::from_source(src), &vec![]).unwrap();
    let ls = lines(&out);
    assert_eq!(ls.len(), 5);
    assert!(ls.contains(&"x = { \"1\" }".to_string()));
    assert!(ls.contains(&"y = { \"two\" }".to_string()));
    assert!(ls.contains(&"r1 = { x ~ y }".to_string()));
    assert!(ls.contains(&"r2 = _{ \"}\" | r1 }".to_string()));
    assert!(ls.contains(&"r3 = @{ ASCII_DIGIT+ }".to_string()));
}

#[test]
fn empty_grammar_gives_empty_text() {
    assert_eq!(compile_grammar(Grammar::from_source(""), &vec![]).unwrap(), "");
    assert_eq!(compile_grammar(Grammar::from_source("// only a comment\n/* and another */"), &vec![]).unwrap(), "");
}

#[test]
fn docs_are_not_emitted() {
    let out = compile_grammar(Grammar::from_source("//! grammar doc\n/// rule doc\na = { \"a\" }"), &vec![]).unwrap();
    assert_eq!(out, "a = { \"a\" }\n");
}

#[test]
fn duplicate_rule_names_both() {
    let err = compile_grammar(Grammar::from_source("a = { \"1\" }\na = { \"2\" }"), &vec![]).unwrap_err();
    assert!(err.contains("Rule \"a\" from grammar \"this\" already exists here:"));
    assert!(err.contains("a = { \"1\" }"));
    assert!(err.contains("you want to set \"a = { \"2\" }\""));
}

#[test]
fn duplicate_variable() {
    let err = compile_grammar(Grammar::from_source("v = \"1\"\nv = \"2\""), &vec![]).unwrap_err();
    assert!(err.contains("Variable \"v\" from grammar \"this\" already exists here:"));
}

#[test]
fn rule_after_variable_conflicts() {
    let err = compile_grammar(Grammar::from_source("a = \"x\"\na = { \"y\" }"), &vec![]).unwrap_err();
    assert!(err.contains("Rule \"a\" from grammar \"this\" conflicts with variable \"a\":"));
}

#[test]
fn variable_after_rule_conflicts() {
    let err = compile_grammar(Grammar::from_source("a = { \"y\" }\na = \"x\""), &vec![]).unwrap_err();
    assert!(err.contains("Variable \"a\" from grammar \"this\" conflicts with rule \"a\":"));
}

#[test]
fn missing_inclusion_names_path() {
    let g = Grammar::from_source("#include \"missing.pest\"\na = { \"a\" }");
    let err = compile_grammar(g, &vec![]).unwrap_err();
    assert!(err.contains("Path doesn't exists: missing.pest"));
    assert!(err.contains("1:1"));
    let g = Grammar::from_source("a = { \"a\" }\n#include \"missing.pest\"");
    assert_eq!(missing_file(&g, &vec![]), Some("missing.pest".to_string()));
}

#[test]
fn included_rule_clash_names_both_grammars() {
    let files = vec![file("b.pest", "a = { \"from b\" }")];
    let g = Grammar::from_source("a = { \"from a\" }\n#include \"b.pest\"");
    let err = compile_grammar(g, &files).unwrap_err();
    assert!(err.contains("from grammar \"b.pest\""));
    assert!(err.contains("[this]: a = { \"from a\" }"));
    assert!(err.contains("[b.pest]: you want to set \"a = { \"from b\" }\""));
}

#[test]
fn included_rule_kept_verbatim() {
    let files = vec![file("b.pest", "X  =  { \"x\"   ~ \"y\" }\n")];
    let g = Grammar::from_source("#include \"b.pest\"\nmain = { X }");
    let out = compile_grammar(g, &files).unwrap();
    assert!(lines(&out).contains(&"X  =  { \"x\"   ~ \"y\" }".to_string()));
    assert!(lines(&out).contains(&"main = { X }".to_string()));
}

#[test]
fn nested_failure_traces_files() {
    let files = vec![file("b.pest", "#include \"c.pest\""), file("c.pest", "a = ")];
    let err = compile_grammar(Grammar::from_source("#include \"b.pest\""), &files).unwrap_err();
    assert!(err.starts_with(
        "An error occurred while parsing included grammar \"b.pest\":\nAn error occurred while parsing included grammar \"c.pest\":\n"
    ));
    assert!(err.contains("Grammar \"c.pest\" holds no valid declaration here"));
}

#[test]
fn cyclic_inclusion_fails() {
    let files = vec![file("a.pest", "#include \"b.pest\""), file("b.pest", "#include \"a.pest\"")];
    let err = compile_grammar(Grammar::from_source("#include \"a.pest\""), &files).unwrap_err();
    assert!(err.contains("\"a.pest\" is already being read"));
}

#[test]
fn syntax_error_position() {
    let err = compile_grammar(Grammar::from_source("a = { \"x\" }\n= b"), &vec![]).unwrap_err();
    assert!(err.contains("Grammar \"this\" holds no valid declaration here"));
    assert!(err.contains("2:1"));
    let err = compile_grammar(Grammar::from_source("a = { b "), &vec![]).unwrap_err();
    assert!(err.contains("1:1"));
}

#[test]
fn from_source_sets_identity() {
    let g = Grammar::from_source("a = { \"a\" }");
    assert_eq!(g.source, "a = { \"a\" }");
    assert_eq!(g.id, "this");
    assert!(g.variables.is_empty());
}

#[test]
fn clash_message_points_at_later_definition() {
    let err = compile_grammar(Grammar::from_source("a = { \"1\" }\na = { \"2\" }"), &vec![]).unwrap_err();
    assert!(err.contains("2:1"));
    assert!(err.contains("2 | a = { \"2\" }"));
}
