use wgsl_preprocessor::engine::preprocess;
use wgsl_preprocessor::strip::remove_comments;
use wgsl_preprocessor::subst::substitute_macros;
use wgsl_preprocessor::table::{Definition, FileMap, MacroTable};
use wgsl_preprocessor::PreprocessorError;

fn file(lines: &[&str]) -> Vec<String> {
    lines.iter().map(|l| l.to_string()).collect()
}

#[test]
fn plain_text_passes_through() {
    let mut files = FileMap::new();
    files.add_file(
        "main".to_string(),
        file(&["a /* c */ b", "x \\", "y", "// full comment"]),
    );
    let out = preprocess("main", "", &files).unwrap();
    assert_eq!(out, "a  b\nx y\n\n");
}

#[test]
fn value_macro_expands() {
    let mut files = FileMap::new();
    files.add_file("main".to_string(), file(&["#define X 5", "X+X"]));
    let out = preprocess("main", "", &files).unwrap();
    assert_eq!(out, "\n5+5\n");
}

#[test]
fn function_macro_expands_nested() {
    let mut files = FileMap::new();
    files.add_file(
        "main".to_string(),
        file(&["#define ADD(a,b) (a+b)", "ADD(1,2)", "ADD(ADD(1,2),3)"]),
    );
    let out = preprocess("main", "", &files).unwrap();
    assert_eq!(out, "\n(1+2)\n((1+2)+3)\n");
}

#[test]
fn cyclic_includes_terminate_and_appear_once() {
    let mut files = FileMap::new();
    files.add_file("A".to_string(), file(&["#include \"B\"", "a-line"]));
    files.add_file("B".to_string(), file(&["#include \"A\"", "b-line"]));
    let out = preprocess("A", "", &files).unwrap();
    assert_eq!(out, "\nb-line\n\na-line\n");
    assert_eq!(out.matches("b-line").count(), 1);
}

#[test]
fn include_without_quotes_fails() {
    let mut files = FileMap::new();
    files.add_file("main".to_string(), file(&["#include foo"]));
    let err = preprocess("main", "", &files).unwrap_err();
    assert_eq!(err, PreprocessorError::IncludeIncorrectArgs);
}

#[test]
fn macro_with_wrong_arg_count_fails() {
    let mut files = FileMap::new();
    files.add_file("main".to_string(), file(&["#define F(a,b) body", "F(1)"]));
    let err = preprocess("main", "", &files).unwrap_err();
    assert_eq!(err, PreprocessorError::MacroIncorrectArgs(2, 1));
}

#[test]
fn unknown_directive_fails() {
    let mut files = FileMap::new();
    files.add_file("main".to_string(), file(&["#unknown"]));
    let err = preprocess("main", "", &files).unwrap_err();
    assert_eq!(err, PreprocessorError::UnknownDirective("#unknown".to_string()));
}

#[test]
fn include_defined_macro_stays_visible() {
    let mut files = FileMap::new();
    files.add_file("A".to_string(), file(&["#include \"B\"", "X"]));
    files.add_file("B".to_string(), file(&["#define X 42"]));
    let out = preprocess("A", "", &files).unwrap();
    assert_eq!(out, "\n\n42\n");
}

#[test]
fn multi_line_block_comment_contributes_nothing() {
    let mut files = FileMap::new();
    files.add_file(
        "main".to_string(),
        file(&["a", "/* line one", "line two */", "b", "#define Y 1", "Y"]),
    );
    let out = preprocess("main", "", &files).unwrap();
    assert_eq!(out, "a\n\nb\n\n1\n");
}

#[test]
fn missing_file_is_not_found() {
    let files = FileMap::new();
    let err = preprocess("nope", "", &files).unwrap_err();
    assert_eq!(err, PreprocessorError::FileNotFound("nope".to_string()));
}

#[test]
fn missing_included_file_is_not_found() {
    let mut files = FileMap::new();
    files.add_file("main".to_string(), file(&["#include \"gone\""]));
    let err = preprocess("main", "", &files).unwrap_err();
    assert_eq!(err, PreprocessorError::FileNotFound("gone".to_string()));
}

#[test]
fn invalid_text_file_fails() {
    let mut files = FileMap::new();
    files.add_not_utf8("bin".to_string());
    let err = preprocess("bin", "", &files).unwrap_err();
    assert_eq!(err, PreprocessorError::FileNotValidUtf8("bin".to_string()));
}

#[test]
fn unclosed_invocation_fails() {
    let mut files = FileMap::new();
    files.add_file("main".to_string(), file(&["#define G(a) a", "G(1"]));
    let err = preprocess("main", "", &files).unwrap_err();
    assert_eq!(err, PreprocessorError::MacroNoParenthesis);
}

#[test]
fn undef_removes_a_definition() {
    let mut files = FileMap::new();
    files.add_file("main".to_string(), file(&["#define X 5", "#undef X", "X"]));
    let out = preprocess("main", "", &files).unwrap();
    assert_eq!(out, "\n\nX\n");
}

#[test]
fn value_tokens_are_joined_with_single_spaces() {
    let mut files = FileMap::new();
    files.add_file("main".to_string(), file(&["#define V a  b", "V"]));
    let out = preprocess("main", "", &files).unwrap();
    assert_eq!(out, "\na b\n");
}

#[test]
fn repeated_include_contributes_once() {
    let mut files = FileMap::new();
    files.add_file(
        "A".to_string(),
        file(&["#include \"B\"", "#include \"B\""]),
    );
    files.add_file("B".to_string(), file(&["z"]));
    let out = preprocess("A", "", &files).unwrap();
    assert_eq!(out, "z\n\n\n");
    assert_eq!(out.matches('z').count(), 1);
}

#[test]
fn include_uses_the_including_files_directory() {
    let mut files = FileMap::new();
    files.add_file("sub/A".to_string(), file(&["#include \"B\"", "end"]));
    files.add_file("sub/B".to_string(), file(&["inner"]));
    let out = preprocess("sub/A", "", &files).unwrap();
    assert_eq!(out, "inner\n\nend\n");
}

#[test]
fn remove_comments_strips_line_comment() {
    let (text, in_block) = remove_comments("int x; // c", false);
    assert_eq!(text, "int x; ");
    assert!(!in_block);
}

#[test]
fn remove_comments_closes_pending_block() {
    let (text, in_block) = remove_comments("still in */ after", true);
    assert_eq!(text, " after");
    assert!(!in_block);
}

#[test]
fn remove_comments_keeps_waiting_without_closer() {
    let (text, in_block) = remove_comments("never closed", true);
    assert_eq!(text, "never closed");
    assert!(in_block);
}

#[test]
fn remove_comments_reports_new_block() {
    let (text, in_block) = remove_comments("a /* open", false);
    assert_eq!(text, "a /* open");
    assert!(in_block);
}

#[test]
fn substitute_replaces_values() {
    let mut t = MacroTable::new();
    t.insert("X".chars().collect(), Definition::Value("5".chars().collect()));
    let (changed, out) = substitute_macros("X+X", &t).unwrap();
    assert!(changed);
    assert_eq!(out, "5+5");
}

#[test]
fn substitute_reports_no_change_without_matches() {
    let t = MacroTable::new();
    let (changed, out) = substitute_macros("nothing here", &t).unwrap();
    assert!(!changed);
    assert_eq!(out, "nothing here");
}

#[test]
fn macro_name_without_parenthesis_is_left_alone() {
    let mut t = MacroTable::new();
    t.insert(
        "F".chars().collect(),
        Definition::Macro(
            vec!["a".chars().collect()],
            "a".chars().collect(),
        ),
    );
    let (changed, out) = substitute_macros("F + 1", &t).unwrap();
    assert!(!changed);
    assert_eq!(out, "F + 1");
}

#[test]
fn arguments_may_nest_braces() {
    let mut files = FileMap::new();
    files.add_file(
        "main".to_string(),
        file(&["#define PAIR(a,b) a|b", "PAIR(f(1,2),{3,4})"]),
    );
    let out = preprocess("main", "", &files).unwrap();
    assert_eq!(out, "\nf(1,2)|{3,4}\n");
}
