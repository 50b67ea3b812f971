use rome_core::context::JsFormatOptions;
use rome_core::js::format_node;
use rome_core::parser::parse_module;

fn format_once(source: &str) -> String {
    let root = parse_module(source);
    let formatted =
        format_node(JsFormatOptions::default(), &root).expect("Expected formatting to succeed");
    formatted.print().as_code().to_string()
}

/// The concatenation of all trimmed token texts under the root.
fn trimmed_text(source: &str) -> String {
    let root = parse_module(source);
    let mut out = String::new();
    collect_trimmed(&root, &mut out);
    out
}

fn collect_trimmed(node: &rome_core::tree::SyntaxNode, out: &mut String) {
    for child in &node.children {
        match child {
            rome_core::tree::SyntaxElement::Node(n) => collect_trimmed(n, out),
            rome_core::tree::SyntaxElement::Token(t) => out.push_str(t.text_trimmed()),
        }
    }
}

#[test]
fn reformat_idempotence_on_samples() {
    for source in [
        "[/* test */ a];",
        "[1,2,3];",
        "a; // test\nb;",
        "// test\n\n b",
        "[/* test */\n\na];",
        "[]; // test",
        "",
        "/* test */",
    ] {
        let once = format_once(source);
        let twice = format_once(&once);
        assert_eq!(once, twice, "formatting {source:?} twice changed the output");
    }
}

#[test]
fn round_trip_preserves_trimmed_text() {
    for source in ["[1,2,3];", "[a, b];", "a;b;", "[x];"] {
        let formatted = format_once(source);
        assert_eq!(
            trimmed_text(source),
            trimmed_text(&formatted),
            "token text changed for {source:?}"
        );
    }
}

#[test]
fn comment_conservation_on_samples() {
    for (source, comment) in [
        ("[/* test */ a];", "/* test */"),
        ("a; // test\nb;", "// test"),
        ("[\na /* one */\n,\nb\n];", "/* one */"),
    ] {
        let formatted = format_once(source);
        assert_eq!(
            formatted.matches(comment).count(),
            1,
            "comment lost or duplicated for {source:?}: {formatted:?}"
        );
    }
}

#[test]
fn block_comment_statement_reformats_to_itself() {
    assert_eq!(format_once("/* test */ a;").trim(), "/* test */ a;");
    assert_eq!(format_once("/* test */\n\na;").trim(), "/* test */\n\na;");
}

#[test]
fn trailing_newlines_of_eof_are_kept() {
    // Output ends with exactly the line breaks that led the end of the file.
    assert_eq!(format_once("a;\n"), "a;\n");
    assert_eq!(format_once("a;\n\n\n"), "a;\n\n");
    assert_eq!(format_once("a;"), "a;");
}
