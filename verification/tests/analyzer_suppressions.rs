use rome_core::analyze::{
    analyze, Diagnostic, GroupKey, QueryMatch, QueryMatcher, RuleKey, SignalEntry, SignalQueue,
    SuppressionParser,
};
use rome_core::syntax::{SyntaxKind, SyntaxToken, TriviaPiece, TriviaPieceKind};
use rome_core::text::TextRange;
use rome_core::suppression::{has_suppressions_category, SuppressionCategory};
use rome_core::tree::{SyntaxElement, SyntaxNode};

struct SuppressionMatcher;

impl QueryMatcher for SuppressionMatcher {
    fn find_group(&self, group: &str) -> Option<GroupKey> {
        if group == "group" {
            Some(GroupKey::new("group"))
        } else {
            None
        }
    }

    fn find_rule(&self, group: &str, rule: &str) -> Option<RuleKey> {
        match group {
            "group" => match rule {
                "rule" => Some(RuleKey::new("group", "rule")),
                _ => None,
            },
            _ => None,
        }
    }

    /// Emits a warning diagnostic for all literal expressions.
    fn match_query(&mut self, query: &QueryMatch, queue: &mut SignalQueue) {
        let QueryMatch::Syntax { kind, range } = *query;
        if kind != SyntaxKind::LiteralExpression {
            return;
        }
        queue.push(SignalEntry {
            signal: Diagnostic::warning(0, "test_suppression", "test_suppression")
                .primary(range, ""),
            rule: RuleKey::new("group", "rule"),
            text_range: range,
        });
    }
}

struct PlainLineParser;

impl SuppressionParser for PlainLineParser {
    fn parse(&self, text: &str) -> Vec<Option<String>> {
        text.trim_start_matches("//")
            .split(' ')
            .map(|s| Some(s.to_string()))
            .collect()
    }
}

fn literal_with_comment(text: &str, comment_len: u32, offset: u32) -> SyntaxElement {
    SyntaxElement::Node(SyntaxNode {
        kind: SyntaxKind::LiteralExpression,
        children: vec![SyntaxElement::Token(SyntaxToken {
            kind: SyntaxKind::StringToken,
            text: text.to_string(),
            leading: vec![
                TriviaPiece::new(TriviaPieceKind::SingleLineComment, comment_len),
                TriviaPiece::new(TriviaPieceKind::Newline, 1),
            ],
            trailing: vec![],
            offset,
        })],
    })
}

fn semicolon(offset: u32) -> SyntaxElement {
    SyntaxElement::Token(SyntaxToken {
        kind: SyntaxKind::Semicolon,
        text: ";\n".to_string(),
        leading: vec![],
        trailing: vec![TriviaPiece::new(TriviaPieceKind::Newline, 1)],
        offset,
    })
}

#[test]
fn suppressions() {
    let root = SyntaxNode {
        kind: SyntaxKind::Root,
        children: vec![SyntaxElement::Node(SyntaxNode {
            kind: SyntaxKind::ExpressionList,
            children: vec![
                literal_with_comment("//group\n\"warn_here\"", 7, 0),
                semicolon(19),
                literal_with_comment("//group/rule\n\"warn_here\"", 12, 21),
                semicolon(45),
                literal_with_comment("//unknown_group\n\"warn_here\"", 15, 47),
                semicolon(74),
                literal_with_comment("//group/unknown_rule\n\"warn_here\"", 20, 76),
                semicolon(108),
            ],
        })],
    };

    let mut matcher = SuppressionMatcher;
    let signals = analyze(&root, &mut matcher, &PlainLineParser, 0);

    let diagnostics: Vec<(String, (u32, u32))> = signals
        .iter()
        .map(|entry| {
            let code = entry.signal.code.clone().expect("code");
            let label = entry.signal.primary.as_ref().expect("primary label");
            (code, (label.range.start, label.range.end))
        })
        .collect();

    assert_eq!(
        diagnostics.as_slice(),
        &[
            (String::from("Linter"), (47, 62)),
            (String::from("test_suppression"), (63, 74)),
            (String::from("Linter"), (76, 96)),
            (String::from("test_suppression"), (97, 108)),
        ]
    );
}

#[test]
fn suppression_through_parsed_source() {
    // A rule registered at (group, rule) warning on every literal: the
    // comment suppressing the group silences the literal it leads.
    let root = rome_core::parser::parse_module("//group\n\"warn_here\";");
    let mut matcher = SuppressionMatcher;
    let signals = analyze(&root, &mut matcher, &PlainLineParser, 0);
    assert!(signals.is_empty());
}

#[test]
fn unknown_suppression_group_reports_both() {
    // An unknown suppression group: the literal's own warning plus one
    // diagnostic at the comment's range, in range order.
    let root = rome_core::parser::parse_module("//unknown_group\n\"warn_here\";");
    let mut matcher = SuppressionMatcher;
    let signals = analyze(&root, &mut matcher, &PlainLineParser, 0);
    let codes: Vec<(String, u32)> = signals
        .iter()
        .map(|e| (e.signal.code.clone().unwrap(), e.text_range.start))
        .collect();
    assert_eq!(
        codes,
        vec![
            (String::from("Linter"), 0),
            (String::from("test_suppression"), 16),
        ]
    );
}

#[test]
fn suppression_category_on_nodes() {
    let root = rome_core::parser::parse_module("// rome-ignore lint: slow\n\"x\";");
    // The root and the statement list cannot carry suppressions.
    assert!(!has_suppressions_category(SuppressionCategory::Lint, &root));
    let list = match &root.children[0] {
        SyntaxElement::Node(n) => n,
        SyntaxElement::Token(_) => panic!("expected statement list"),
    };
    assert!(!has_suppressions_category(SuppressionCategory::Lint, list));
    // The statement whose first token the comment leads does.
    let stmt = match &list.children[0] {
        SyntaxElement::Node(n) => n,
        SyntaxElement::Token(_) => panic!("expected statement"),
    };
    assert!(has_suppressions_category(SuppressionCategory::Lint, stmt));
    assert!(!has_suppressions_category(SuppressionCategory::Format, stmt));
}
