use rome_core::context::{JsCommentStyle, JsFormatOptions};
use rome_core::formatter::Formatter;
use rome_core::syntax::{SyntaxKind, SyntaxToken};
use rome_core::js::format_node;
use rome_core::parser::parse_module;

fn assert_formatted(source: &str, expected: &str) {
    let root = parse_module(source);
    let formatted =
        format_node(JsFormatOptions::default(), &root).expect("Expected formatting to succeed");
    let actual = formatted.print();
    assert_eq!(actual.as_code().trim(), expected);
}

#[test]
fn test_inline_comment_same_line() {
    assert_formatted("[/* test */];", "[/* test */];");
    assert_formatted("[       /* test */             ];", "[/* test */];");

    assert_formatted("[       /* test */  a];", "[/* test */ a];");
}

#[test]
fn test_inline_comment_leading_new_lines() {
    assert_formatted("[\n/* test */];", "[/* test */];");
    assert_formatted("[\n\n/* test */];", "[/* test */];");
}

#[test]
fn test_inline_comment_trailing_new_lines() {
    assert_formatted("[/* test */ a];", "[/* test */ a];");
    assert_formatted("[/* test */\n\na];", "[\n\t/* test */\n\n\ta,\n];");
}

#[test]
fn test_inline_comment_eof() {
    assert_formatted("/* test */", "/* test */");
}

#[test]
fn test_line_comment() {
    assert_formatted("[]; // test", "[]; // test");
    assert_formatted("[] // test\n;", "[]; // test");
    assert_formatted(
        r#"[
        a // test
        ,
        b
        ]"#,
        "[\n\ta, // test\n\tb,\n];",
    );
}

#[test]
fn test_line_comment_spacing() {
    assert_formatted("a; // test\nb;", "a; // test\nb;");

    assert_formatted("// test\n\n b", "// test\n\nb;");
}

#[test]
fn snapshot_restores_previous_token() {
    let mut f = Formatter::new();
    let snapshot = f.state_snapshot();
    let token = SyntaxToken::new_detached(SyntaxKind::Ident, "a", vec![], vec![]);
    f.format_token(&token, &JsCommentStyle).expect("token formats");
    assert!(f.prev.is_some());
    let id_before = f.group_id("probe").id;
    f.restore_state_snapshot(snapshot);
    assert!(f.prev.is_none());
    assert_eq!(f.group_id("probe").id, id_before);
}
