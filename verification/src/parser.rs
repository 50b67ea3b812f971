//! A recursive-descent parser for a small expression-statement language:
//! statements end in semicolons and hold array literals, string literals and
//! identifiers. It produces a lossless tree through the tree sink.

use vstd::prelude::*;

use crate::lexer::{tokenize, LexedToken};
use crate::lossless_tree_sink::LosslessTreeSink;
use crate::suppression::chars_of;
use crate::syntax::SyntaxKind;
use crate::tree::SyntaxNode;

verus! {

/// Parses one expression starting at token `p`: an array in brackets, or a
/// single literal or identifier token. Consumes at least one token.
#[verifier::loop_isolation(false)]
fn parse_expr(tokens: &Vec<LexedToken>, p: usize, sink: &mut LosslessTreeSink) -> (r: usize)
    requires
        old(sink).wf(),
        old(sink).stack@.len() > 0,
        p < tokens@.len(),
    ensures
        final(sink).wf(),
        final(sink).stack@.len() == old(sink).stack@.len(),
        final(sink).source@ == old(sink).source@,
        p < r <= tokens@.len(),
    decreases tokens@.len() - p,
{
    let n_all = tokens.len();
    let t = tokens[p];
    match t.kind {
        SyntaxKind::LBrack => {
            sink.start_node(SyntaxKind::ArrayExpression);
            sink.token(SyntaxKind::LBrack, t.len);
            sink.start_node(SyntaxKind::ArrayElementList);
            let mut q = p + 1;
            loop
                invariant
                    sink.wf(),
                    sink.stack@.len() == old(sink).stack@.len() + 2,
                    sink.source@ == old(sink).source@,
                    p < q <= tokens@.len(),
                decreases tokens@.len() - q,
            {
                if q >= tokens.len() {
                    break;
                }
                let k = tokens[q].kind;
                if matches!(k, SyntaxKind::RBrack) {
                    break;
                }
                if matches!(k, SyntaxKind::Comma) {
                    sink.token(SyntaxKind::Comma, tokens[q].len);
                    q = q + 1;
                } else if matches!(k, SyntaxKind::Semicolon) || matches!(k, SyntaxKind::Eof) {
                    break;
                } else {
                    q = parse_expr(tokens, q, sink);
                }
            }
            sink.finish_node();
            if q < tokens.len() && matches!(tokens[q].kind, SyntaxKind::RBrack) {
                sink.token(SyntaxKind::RBrack, tokens[q].len);
                q = q + 1;
            }
            sink.finish_node();
            q
        },
        _ => {
            sink.start_node(SyntaxKind::LiteralExpression);
            sink.token(t.kind, t.len);
            sink.finish_node();
            p + 1
        },
    }
}

/// Parses source text into a lossless tree: a root holding a statement list
/// of expression statements. Every character of the source is kept, as token
/// text or as trivia attached to a token.
#[verifier::loop_isolation(false)]
pub fn parse_module(text: &str) -> (r: SyntaxNode)
    requires
        text@.len() <= u32::MAX / 2,
    ensures
        r.kind == SyntaxKind::Root,
        crate::tree::wf_tokens(crate::tree::node_tokens(r)),
        exists|k: int|
            0 <= k <= text@.len() && crate::tree::tokens_text(crate::tree::node_tokens(r))
                == #[trigger] text@.take(k),
{
    let chars = chars_of(text);
    let (tokens, trivia) = tokenize(&chars);
    let mut sink = LosslessTreeSink::new(text, trivia);
    sink.start_node(SyntaxKind::Root);
    sink.start_node(SyntaxKind::StatementList);
    let n = tokens.len();
    let mut p: usize = 0;
    while p < n
        invariant
            n == tokens@.len(),
            sink.wf(),
            sink.stack@.len() == 2,
            sink.source@ == text@,
            p <= n,
        decreases n - p,
    {
        let k = tokens[p].kind;
        if matches!(k, SyntaxKind::Semicolon) {
            sink.start_node(SyntaxKind::ExpressionStatement);
            sink.token(SyntaxKind::Semicolon, tokens[p].len);
            sink.finish_node();
            p = p + 1;
        } else if matches!(k, SyntaxKind::RBrack) || matches!(k, SyntaxKind::Comma) || matches!(
            k,
            SyntaxKind::Eof,
        ) {
            sink.token(k, tokens[p].len);
            p = p + 1;
        } else {
            sink.start_node(SyntaxKind::ExpressionStatement);
            p = parse_expr(&tokens, p, &mut sink);
            if p < n && matches!(tokens[p].kind, SyntaxKind::Semicolon) {
                sink.token(SyntaxKind::Semicolon, tokens[p].len);
                p = p + 1;
            }
            sink.finish_node();
        }
    }
    sink.finish_node();
    sink.finish_node();
    proof {
        assert(sink.stack@.len() == 1);
        assert(sink.source@ == text@);
    }
    let ghost consumed = sink.text_pos as int;
    let root = sink.finish();
    proof {
        assert(crate::tree::tokens_text(crate::tree::node_tokens(root)) == text@.take(consumed));
    }
    if matches!(root.kind, SyntaxKind::Root) {
        root
    } else {
        let r = SyntaxNode { kind: SyntaxKind::Root, children: root.children };
        proof {
            assert(crate::tree::node_tokens(r) == crate::tree::node_tokens(root));
        }
        r
    }
}

} // verus!
