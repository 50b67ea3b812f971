//! Formatting rules for the statement language: statements joined by hard
//! lines (blank lines kept), arrays grouped with soft indentation and a
//! trailing comma when expanded, literals printed from their source text.

use vstd::prelude::*;

use crate::builders::{group_elements, if_group_breaks, soft_block_indent};
use crate::context::{JsCommentStyle, JsFormatOptions};
use crate::format_element::{view_list, wf_element, wf_list, FormatElement};
use crate::formatter::{FormatError, Formatter};
use crate::printer::{print, LineEnding, Printed, PrinterOptions};
use crate::syntax::{SyntaxKind, TriviaPiece, TriviaPieceKind};
use crate::tree::{SyntaxElement, SyntaxNode};

verus! {

broadcast use vstd::std_specs::vec::axiom_vec_decreases_to_view, vstd::seq::axiom_seq_index_decreases;

/// The hypothesis under which formatting is guaranteed to succeed: every
/// token of the node is free of skipped trivia, and so is the trailing
/// trivia of the token formatted before it.
pub open spec fn clean_run(node: SyntaxNode, prev: Option<crate::syntax::SyntaxToken>) -> bool {
    crate::formatter::tokens_clean(crate::tree::node_tokens(node)) && crate::formatter::prev_clean(
        prev,
    )
}

/// A formatted document: the format IR and the options to print it with.
pub struct Formatted {
    pub element: FormatElement,
    pub options: PrinterOptions,
}

impl Formatted {
    /// Prints the document; the output is exactly what the specification
    /// printer produces for this IR and these options.
    pub fn print(&self) -> (r: Printed)
        ensures
            r.code@ == crate::printer::spec_print_document(self.element@, self.options),
    {
        print(&self.element, &self.options)
    }
}

/// The number of newline pieces standing before the first comment piece of
/// the trivia list.
pub open spec fn spec_lines_before(pieces: Seq<TriviaPiece>) -> int
    decreases pieces,
{
    if pieces.len() == 0 {
        0int
    } else if pieces.first().kind == TriviaPieceKind::SingleLineComment || pieces.first().kind
        == TriviaPieceKind::MultiLineComment {
        0int
    } else if pieces.first().kind == TriviaPieceKind::Newline {
        1 + spec_lines_before(pieces.drop_first())
    } else {
        spec_lines_before(pieces.drop_first())
    }
}

/// The number of line breaks before the node's first token, counted up to
/// the first comment: what separates the node from what stands before it.
/// Saturates at the largest count a `u32` can hold.
#[verifier::loop_isolation(false)]
pub fn get_lines_before(node: &SyntaxNode) -> (r: u32)
    ensures
        crate::tree::node_tokens(*node).len() == 0 ==> r == 0,
        crate::tree::node_tokens(*node).len() > 0 ==> ({
            let lb = spec_lines_before(crate::tree::node_tokens(*node).first().leading@);
            r == if lb > u32::MAX {
                u32::MAX as int
            } else {
                lb
            }
        }),
{
    match node.first_token() {
        Some(t) => {
            let mut lines: u32 = 0;
            let ghost mut true_lines: int = 0;
            let n = t.leading.len();
            let mut i: usize = 0;
            proof {
                assert(t.leading@.skip(0) =~= t.leading@);
                lemma_spec_lines_before_nonneg(t.leading@);
            }
            while i < n
                invariant
                    i <= n,
                    n == t.leading@.len(),
                    true_lines >= 0,
                    lines == if true_lines > u32::MAX {
                        u32::MAX as int
                    } else {
                        true_lines
                    },
                    spec_lines_before(t.leading@) == true_lines + spec_lines_before(
                        t.leading@.skip(i as int),
                    ),
                    spec_lines_before(t.leading@.skip(i as int)) >= 0,
                decreases n - i,
            {
                let piece = t.leading[i];
                proof {
                    assert(t.leading@.skip(i as int).first() == t.leading@[i as int]);
                    assert(t.leading@.skip(i as int).drop_first() =~= t.leading@.skip(i + 1));
                    lemma_spec_lines_before_nonneg(t.leading@.skip(i + 1));
                }
                if piece.kind.is_comments() {
                    return lines;
                }
                if matches!(piece.kind, TriviaPieceKind::Newline) {
                    proof {
                        true_lines = true_lines + 1;
                    }
                    if lines < u32::MAX {
                        lines = lines + 1;
                    }
                }
                i = i + 1;
            }
            proof {
                assert(t.leading@.skip(n as int) =~= Seq::<crate::syntax::TriviaPiece>::empty());
            }
            lines
        },
        None => 0,
    }
}

/// The count of leading newline pieces is never negative.
proof fn lemma_spec_lines_before_nonneg(pieces: Seq<crate::syntax::TriviaPiece>)
    ensures
        spec_lines_before(pieces) >= 0,
    decreases pieces,
{
    if pieces.len() > 0 {
        lemma_spec_lines_before_nonneg(pieces.drop_first());
    }
}

/// True when the element holds no expression children (only tokens).
#[verifier::loop_isolation(false)]
fn has_no_node_children(node: &SyntaxNode) -> (r: bool)
{
    let n = node.children.len();
    let mut i: usize = 0;
    while i < n
        invariant
            i <= n,
            n == node.children@.len(),
        decreases n - i,
    {
        if matches!(&node.children[i], SyntaxElement::Node(_)) {
            return false;
        }
        i = i + 1;
    }
    true
}

/// Formats one node of the tree.
#[verifier::loop_isolation(false)]
fn format_any_node(node: &SyntaxNode, f: &mut Formatter, style: &JsCommentStyle) -> (r: Result<
    FormatElement,
    FormatError,
>)
    requires
        crate::tree::wf_tokens(crate::tree::node_tokens(*node)),
        match old(f).prev {
            Some(t) => t.wf(),
            None => true,
        },
    ensures
        r matches Ok(e) ==> wf_element(e@),
        match final(f).prev {
            Some(t) => t.wf(),
            None => true,
        },
        clean_run(*node, old(f).prev) ==> r is Ok && crate::formatter::prev_clean(final(f).prev),
    decreases node, 1int,
{
    match node.kind {
        SyntaxKind::StatementList => format_statement_list(node, f, style),
        SyntaxKind::ArrayExpression => format_array(node, f, style),
        SyntaxKind::ExpressionStatement => format_expression_statement(node, f, style),
        SyntaxKind::Root => format_root(node, f, style),
        _ => format_children(node, f, style),
    }
}

/// Formats the children of a node in order, without adding structure.
#[verifier::loop_isolation(false)]
fn format_children(node: &SyntaxNode, f: &mut Formatter, style: &JsCommentStyle) -> (r: Result<
    FormatElement,
    FormatError,
>)
    requires
        crate::tree::wf_tokens(crate::tree::node_tokens(*node)),
        match old(f).prev {
            Some(t) => t.wf(),
            None => true,
        },
    ensures
        r matches Ok(e) ==> wf_element(e@),
        match final(f).prev {
            Some(t) => t.wf(),
            None => true,
        },
        clean_run(*node, old(f).prev) ==> r is Ok && crate::formatter::prev_clean(final(f).prev),
    decreases node, 0int,
{
    let mut parts: Vec<FormatElement> = Vec::new();
    proof {
        crate::format_element::lemma_view_list_len_all();
        assert(wf_list(view_list(parts@)));
    }
    let n = node.children.len();
    let mut i: usize = 0;
    while i < n
        invariant
            i <= n,
            n == node.children@.len(),
            wf_list(view_list(parts@)),
            match f.prev {
                Some(t) => t.wf(),
                None => true,
            },
            clean_run(*node, old(f).prev) ==> crate::formatter::prev_clean(f.prev),
        decreases n - i,
    {
        proof {
            lemma_child_tokens_wf(*node, i as int);
        }
        let ghost pre_prev = f.prev;
        let el: FormatElement = match &node.children[i] {
            SyntaxElement::Token(t) => {
                proof {
                    if clean_run(*node, old(f).prev) {
                        crate::formatter::lemma_collect_comments_clean(*style, pre_prev, *t);
                    }
                }
                match f.format_token(t, style) {
                    Ok(e) => e,
                    Err(e) => {
                        return Err(e);
                    },
                }
            },
            SyntaxElement::Node(ch) => {
                match format_any_node(ch, f, style) {
                    Ok(e) => e,
                    Err(e) => {
                        return Err(e);
                    },
                }
            },
        };
        push_flat(&mut parts, el);
        i = i + 1;
    }
    Ok(FormatElement::List { content: parts })
}

/// The line breaks between the last comment (or content) and the end of the
/// token's leading trivia.
#[verifier::loop_isolation(false)]
fn lines_after_last_comment(token: &crate::syntax::SyntaxToken) -> (r: u32)
{
    let mut lines: u32 = 0;
    let n = token.leading.len();
    let mut i: usize = 0;
    while i < n
        invariant
            i <= n,
            n == token.leading@.len(),
        decreases n - i,
    {
        let piece = token.leading[i];
        if piece.kind.is_comments() {
            lines = 0;
        } else if matches!(piece.kind, TriviaPieceKind::Newline) {
            if lines < u32::MAX {
                lines = lines + 1;
            }
        }
        i = i + 1;
    }
    lines
}

/// Formats the root: its children, and then the line breaks that closed the
/// source, kept as one line break or one empty line.
#[verifier::loop_isolation(false)]
fn format_root(node: &SyntaxNode, f: &mut Formatter, style: &JsCommentStyle) -> (r: Result<
    FormatElement,
    FormatError,
>)
    requires
        crate::tree::wf_tokens(crate::tree::node_tokens(*node)),
        match old(f).prev {
            Some(t) => t.wf(),
            None => true,
        },
    ensures
        r matches Ok(e) ==> wf_element(e@),
        match final(f).prev {
            Some(t) => t.wf(),
            None => true,
        },
        clean_run(*node, old(f).prev) ==> r is Ok && crate::formatter::prev_clean(final(f).prev),
    decreases node, 0int,
{
    let mut parts: Vec<FormatElement> = Vec::new();
    proof {
        crate::format_element::lemma_view_list_len_all();
        assert(wf_list(view_list(parts@)));
    }
    let n = node.children.len();
    let mut i: usize = 0;
    while i < n
        invariant
            i <= n,
            n == node.children@.len(),
            wf_list(view_list(parts@)),
            match f.prev {
                Some(t) => t.wf(),
                None => true,
            },
            clean_run(*node, old(f).prev) ==> crate::formatter::prev_clean(f.prev),
        decreases n - i,
    {
        proof {
            lemma_child_tokens_wf(*node, i as int);
        }
        let ghost pre_prev = f.prev;
        match &node.children[i] {
            SyntaxElement::Token(t) => {
                let is_eof = matches!(t.kind, SyntaxKind::Eof);
                let closing_lines = if is_eof {
                    lines_after_last_comment(t)
                } else {
                    0
                };
                proof {
                    if clean_run(*node, old(f).prev) {
                        crate::formatter::lemma_collect_comments_clean(*style, pre_prev, *t);
                    }
                }
                let el = match f.format_token(t, style) {
                    Ok(e) => e,
                    Err(e) => {
                        return Err(e);
                    },
                };
                push_flat(&mut parts, el);
                if is_eof && closing_lines == 1 {
                    push_wf(&mut parts, crate::builders::hard_line_break());
                } else if is_eof && closing_lines > 1 {
                    push_wf(&mut parts, crate::builders::empty_line());
                }
            },
            SyntaxElement::Node(ch) => {
                let el = match format_any_node(ch, f, style) {
                    Ok(e) => e,
                    Err(e) => {
                        return Err(e);
                    },
                };
                push_flat(&mut parts, el);
            },
        }
        i = i + 1;
    }
    Ok(FormatElement::List { content: parts })
}

/// Formats an expression statement: its content followed by a semicolon,
/// added when the source has none.
#[verifier::loop_isolation(false)]
fn format_expression_statement(node: &SyntaxNode, f: &mut Formatter, style: &JsCommentStyle) -> (r:
    Result<FormatElement, FormatError>)
    requires
        crate::tree::wf_tokens(crate::tree::node_tokens(*node)),
        match old(f).prev {
            Some(t) => t.wf(),
            None => true,
        },
    ensures
        r matches Ok(e) ==> wf_element(e@),
        match final(f).prev {
            Some(t) => t.wf(),
            None => true,
        },
        clean_run(*node, old(f).prev) ==> r is Ok && crate::formatter::prev_clean(final(f).prev),
    decreases node, 0int,
{
    let mut parts: Vec<FormatElement> = Vec::new();
    proof {
        crate::format_element::lemma_view_list_len_all();
        assert(wf_list(view_list(parts@)));
    }
    let n = node.children.len();
    let mut i: usize = 0;
    let mut has_semicolon = false;
    while i < n
        invariant
            i <= n,
            n == node.children@.len(),
            wf_list(view_list(parts@)),
            match f.prev {
                Some(t) => t.wf(),
                None => true,
            },
            clean_run(*node, old(f).prev) ==> crate::formatter::prev_clean(f.prev),
        decreases n - i,
    {
        proof {
            lemma_child_tokens_wf(*node, i as int);
        }
        let ghost pre_prev = f.prev;
        let el: FormatElement = match &node.children[i] {
            SyntaxElement::Token(t) => {
                if matches!(t.kind, SyntaxKind::Semicolon) {
                    has_semicolon = true;
                }
                proof {
                    if clean_run(*node, old(f).prev) {
                        crate::formatter::lemma_collect_comments_clean(*style, pre_prev, *t);
                    }
                }
                match f.format_token(t, style) {
                    Ok(e) => e,
                    Err(e) => {
                        return Err(e);
                    },
                }
            },
            SyntaxElement::Node(ch) => {
                match format_any_node(ch, f, style) {
                    Ok(e) => e,
                    Err(e) => {
                        return Err(e);
                    },
                }
            },
        };
        push_flat(&mut parts, el);
        i = i + 1;
    }
    if !has_semicolon {
        proof {
            reveal_strlit(";");
        }
        push_wf(&mut parts, crate::builders::token(";"));
    }
    Ok(FormatElement::List { content: parts })
}

/// Formats a statement list: statements joined by hard line breaks, with
/// blank lines from the source kept as one empty line.
#[verifier::loop_isolation(false)]
fn format_statement_list(node: &SyntaxNode, f: &mut Formatter, style: &JsCommentStyle) -> (r:
    Result<FormatElement, FormatError>)
    requires
        crate::tree::wf_tokens(crate::tree::node_tokens(*node)),
        match old(f).prev {
            Some(t) => t.wf(),
            None => true,
        },
    ensures
        r matches Ok(e) ==> wf_element(e@),
        match final(f).prev {
            Some(t) => t.wf(),
            None => true,
        },
        clean_run(*node, old(f).prev) ==> r is Ok && crate::formatter::prev_clean(final(f).prev),
    decreases node, 0int,
{
    let mut join = f.join_nodes_with_hardline();
    let n = node.children.len();
    let mut i: usize = 0;
    while i < n
        invariant
            i <= n,
            n == node.children@.len(),
            join.wf_elements(),
            join.sep_wf(),
            match f.prev {
                Some(t) => t.wf(),
                None => true,
            },
            clean_run(*node, old(f).prev) ==> crate::formatter::prev_clean(f.prev),
        decreases n - i,
    {
        proof {
            lemma_child_tokens_wf(*node, i as int);
        }
        let ghost pre_prev = f.prev;
        match &node.children[i] {
            SyntaxElement::Token(t) => {
                proof {
                    if clean_run(*node, old(f).prev) {
                        crate::formatter::lemma_collect_comments_clean(*style, pre_prev, *t);
                    }
                }
                let el = match f.format_token(t, style) {
                    Ok(e) => e,
                    Err(e) => {
                        return Err(e);
                    },
                };
                join.entry(0, el);
            },
            SyntaxElement::Node(ch) => {
                let lines = get_lines_before(ch);
                let el = match format_any_node(ch, f, style) {
                    Ok(e) => e,
                    Err(e) => {
                        return Err(e);
                    },
                };
                join.entry(lines, el);
            },
        }
        i = i + 1;
    }
    Ok(join.finish())
}

/// Formats an array expression: flat as `[a, b]`; expanded with one element
/// per indented line and a trailing comma. Comments in an empty array are
/// kept inline between the brackets.
#[verifier::loop_isolation(false)]
fn format_array(node: &SyntaxNode, f: &mut Formatter, style: &JsCommentStyle) -> (r: Result<
    FormatElement,
    FormatError,
>)
    requires
        crate::tree::wf_tokens(crate::tree::node_tokens(*node)),
        match old(f).prev {
            Some(t) => t.wf(),
            None => true,
        },
    ensures
        r matches Ok(e) ==> wf_element(e@),
        match final(f).prev {
            Some(t) => t.wf(),
            None => true,
        },
        clean_run(*node, old(f).prev) ==> r is Ok && crate::formatter::prev_clean(final(f).prev),
    decreases node, 0int,
{
    let mut parts: Vec<FormatElement> = Vec::new();
    proof {
        crate::format_element::lemma_view_list_len_all();
        assert(wf_list(view_list(parts@)));
    }
    let n = node.children.len();
    let mut i: usize = 0;
    while i < n
        invariant
            i <= n,
            n == node.children@.len(),
            wf_list(view_list(parts@)),
            match f.prev {
                Some(t) => t.wf(),
                None => true,
            },
            clean_run(*node, old(f).prev) ==> crate::formatter::prev_clean(f.prev),
        decreases n - i,
    {
        proof {
            lemma_child_tokens_wf(*node, i as int);
        }
        let ghost pre_prev = f.prev;
        match &node.children[i] {
            SyntaxElement::Token(t) => {
                proof {
                    if clean_run(*node, old(f).prev) {
                        crate::formatter::lemma_collect_comments_clean(*style, pre_prev, *t);
                    }
                }
                let el = match f.format_token(t, style) {
                    Ok(e) => e,
                    Err(e) => {
                        return Err(e);
                    },
                };
                push_wf(&mut parts, el);
            },
            SyntaxElement::Node(list_node) => {
                if matches!(list_node.kind, SyntaxKind::ArrayElementList) && has_no_node_children(
                    list_node,
                ) && i + 1 < n {
                    // No elements: the closing bracket's comments stay
                    // inline between the brackets.
                    match &node.children[i + 1] {
                        SyntaxElement::Token(rb) => {
                            proof {
                                lemma_child_tokens_wf(*node, i + 1);
                                if clean_run(*node, old(f).prev) {
                                    crate::formatter::lemma_collect_comments_clean(
                                        *style,
                                        pre_prev,
                                        *rb,
                                    );
                                }
                            }
                            let el = match f.format_token_dangling(rb, style) {
                                Ok(e) => e,
                                Err(e) => {
                                    return Err(e);
                                },
                            };
                            push_wf(&mut parts, el);
                            i = i + 2;
                            continue;
                        },
                        SyntaxElement::Node(_) => {},
                    }
                }
                let elements = match format_array_elements(list_node, f, style) {
                    Ok(e) => e,
                    Err(e) => {
                        return Err(e);
                    },
                };
                push_wf(&mut parts, soft_block_indent(elements));
            },
        }
        i = i + 1;
    }
    let content = FormatElement::List { content: parts };
    Ok(group_elements(content).finish())
}

/// Formats the elements of an array: each element with its comma (a missing
/// one is added when the array expands), separated by soft line breaks or
/// spaces.
#[verifier::loop_isolation(false)]
fn format_array_elements(node: &SyntaxNode, f: &mut Formatter, style: &JsCommentStyle) -> (r:
    Result<FormatElement, FormatError>)
    requires
        crate::tree::wf_tokens(crate::tree::node_tokens(*node)),
        match old(f).prev {
            Some(t) => t.wf(),
            None => true,
        },
    ensures
        r matches Ok(e) ==> wf_element(e@),
        match final(f).prev {
            Some(t) => t.wf(),
            None => true,
        },
        clean_run(*node, old(f).prev) ==> r is Ok && crate::formatter::prev_clean(final(f).prev),
    decreases node, 0int,
{
    let mut join = f.join_with(crate::builders::soft_line_break_or_space());
    let n = node.children.len();
    let mut i: usize = 0;
    proof {
        crate::format_element::lemma_view_list_len_all();
    }
    while i < n
        invariant
            i <= n,
            n == node.children@.len(),
            join.wf(),
            join.wf_elements(),
            join.sep_wf(),
            match f.prev {
                Some(t) => t.wf(),
                None => true,
            },
            clean_run(*node, old(f).prev) ==> crate::formatter::prev_clean(f.prev),
        decreases n - i,
    {
        proof {
            lemma_child_tokens_wf(*node, i as int);
        }
        let ghost pre_prev = f.prev;
        match &node.children[i] {
            SyntaxElement::Node(ch) => {
                let expr = match format_any_node(ch, f, style) {
                    Ok(e) => e,
                    Err(e) => {
                        return Err(e);
                    },
                };
                let mut entry_parts: Vec<FormatElement> = Vec::new();
                proof {
                    crate::format_element::lemma_view_list_len_all();
                    assert(wf_list(view_list(entry_parts@)));
                }
                push_wf(&mut entry_parts, expr);
                let mut had_comma = false;
                if i + 1 < n {
                    match &node.children[i + 1] {
                        SyntaxElement::Token(t) => {
                            if matches!(t.kind, SyntaxKind::Comma) {
                                let ghost mid_prev = f.prev;
                                proof {
                                    lemma_child_tokens_wf(*node, i + 1);
                                    if clean_run(*node, old(f).prev) {
                                        crate::formatter::lemma_collect_comments_clean(
                                            *style,
                                            mid_prev,
                                            *t,
                                        );
                                    }
                                }
                                let c = match f.format_token(t, style) {
                                    Ok(e) => e,
                                    Err(e) => {
                                        return Err(e);
                                    },
                                };
                                push_wf(&mut entry_parts, c);
                                had_comma = true;
                            }
                        },
                        SyntaxElement::Node(_) => {},
                    }
                }
                if !had_comma {
                    proof {
                        reveal_strlit(",");
                    }
                    push_wf(&mut entry_parts, if_group_breaks(crate::builders::token(",")).finish());
                }
                join.entry(FormatElement::List { content: entry_parts });
                if had_comma {
                    i = i + 2;
                } else {
                    i = i + 1;
                }
            },
            SyntaxElement::Token(t) => {
                // A stray token (for example a leading comma): keep it.
                proof {
                    if clean_run(*node, old(f).prev) {
                        crate::formatter::lemma_collect_comments_clean(*style, pre_prev, *t);
                    }
                }
                let el = match f.format_token(t, style) {
                    Ok(e) => e,
                    Err(e) => {
                        return Err(e);
                    },
                };
                join.entry(el);
                i = i + 1;
            },
        }
    }
    let r = join.finish();
    Ok(r)
}

/// Appends an element to a well-formed element list, splicing a list's
/// items in directly so that leading comment markers stay at the top level.
#[verifier::loop_isolation(false)]
fn push_flat(v: &mut Vec<FormatElement>, e: FormatElement)
    requires
        wf_list(view_list(old(v)@)),
        wf_element(e@),
    ensures
        wf_list(view_list(final(v)@)),
{
    match e {
        FormatElement::List { content: mut items } => {
            proof {
                crate::format_element::lemma_view_list_len_all();
            }
            let ghost items_v = view_list(items@);
            let mut i: usize = 0;
            let total = items.len();
            while items.len() > 0
                invariant
                    wf_list(view_list(v@)),
                    wf_list(view_list(items@)),
                decreases items.len(),
            {
                let ghost pre_items = view_list(items@);
                let x = items.remove(0);
                proof {
                    crate::format_element::lemma_view_list_len_all();
                    assert(view_list(items@) =~= pre_items.drop_first());
                    assert(pre_items.first() == x@);
                }
                push_wf(v, x);
            }
        },
        other => {
            push_wf(v, other);
        },
    }
}

/// Appends a well-formed element to a well-formed element list.
fn push_wf(v: &mut Vec<FormatElement>, e: FormatElement)
    requires
        wf_list(view_list(old(v)@)),
        wf_element(e@),
    ensures
        wf_list(view_list(final(v)@)),
{
    let ghost ev = e@;
    v.push(e);
    proof {
        crate::format_element::lemma_view_list_len_all();
        assert(view_list(v@) =~= view_list(old(v)@).push(ev));
        crate::format_element::lemma_wf_list_push(view_list(old(v)@), ev);
    }
}

/// The tokens of every child of a well-formed node are well formed, and a
/// child of a node whose tokens are free of skipped trivia is so too.
pub proof fn lemma_child_tokens_wf_pub(node: SyntaxNode, i: int)
    requires
        crate::tree::wf_tokens(crate::tree::node_tokens(node)),
        0 <= i < node.children@.len(),
    ensures
        crate::tree::wf_tokens(crate::tree::elem_tokens(node.children@[i])),
        node.children@[i] matches SyntaxElement::Token(t) ==> t.wf(),
        node.children@[i] matches SyntaxElement::Node(ch) ==> crate::tree::wf_tokens(
            crate::tree::node_tokens(ch),
        ),
        crate::formatter::tokens_clean(crate::tree::node_tokens(node)) ==> (
        crate::formatter::tokens_clean(crate::tree::elem_tokens(node.children@[i]))
            && (node.children@[i] matches SyntaxElement::Token(t)
            ==> crate::formatter::token_clean(t)) && (node.children@[i]
            matches SyntaxElement::Node(ch) ==> crate::formatter::tokens_clean(
            crate::tree::node_tokens(ch),
        ))),
{
    lemma_child_tokens_wf(node, i);
}

/// The tokens of every child of a well-formed node are well formed, and a
/// child of a node whose tokens are free of skipped trivia is so too.
proof fn lemma_child_tokens_wf(node: SyntaxNode, i: int)
    requires
        crate::tree::wf_tokens(crate::tree::node_tokens(node)),
        0 <= i < node.children@.len(),
    ensures
        crate::tree::wf_tokens(crate::tree::elem_tokens(node.children@[i])),
        node.children@[i] matches SyntaxElement::Token(t) ==> t.wf(),
        node.children@[i] matches SyntaxElement::Node(ch) ==> crate::tree::wf_tokens(
            crate::tree::node_tokens(ch),
        ),
        crate::formatter::tokens_clean(crate::tree::node_tokens(node)) ==> (
        crate::formatter::tokens_clean(crate::tree::elem_tokens(node.children@[i]))
            && (node.children@[i] matches SyntaxElement::Token(t)
            ==> crate::formatter::token_clean(t)) && (node.children@[i]
            matches SyntaxElement::Node(ch) ==> crate::formatter::tokens_clean(
            crate::tree::node_tokens(ch),
        ))),
{
    crate::tree::lemma_list_tokens_split(node.children@, i);
    let before = crate::tree::list_tokens(node.children@.take(i));
    let mid = crate::tree::elem_tokens(node.children@[i]);
    assert forall|j: int| 0 <= j < mid.len() implies (#[trigger] mid[j]).wf() by {
        assert(crate::tree::node_tokens(node)[before.len() + j] == mid[j]);
    }
    if crate::formatter::tokens_clean(crate::tree::node_tokens(node)) {
        assert forall|j: int| 0 <= j < mid.len() implies crate::formatter::token_clean(
            #[trigger] mid[j],
        ) by {
            assert(crate::tree::node_tokens(node)[before.len() + j] == mid[j]);
        }
    }
    match node.children@[i] {
        SyntaxElement::Token(t) => {
            assert(mid =~= seq![t]);
            assert(mid[0] == t);
        },
        SyntaxElement::Node(ch) => {
            assert(crate::tree::node_tokens(ch) == mid);
        },
    }
}

/// Formats a parsed document: the statements, then the comments attached to
/// the end of the file, then the line breaks that closed the source. When no
/// token of the tree carries skipped (unparsed) trivia, formatting succeeds;
/// equivalently, the only error, a syntax error, is returned only when
/// skipped source text stands somewhere in the tree.
pub fn format_node(options: JsFormatOptions, root: &SyntaxNode) -> (r: Result<
    Formatted,
    FormatError,
>)
    requires
        crate::tree::wf_tokens(crate::tree::node_tokens(*root)),
    ensures
        r matches Ok(fm) ==> wf_element(fm.element@),
        r matches Ok(fm) ==> fm.options.print_width == options.line_width
            && fm.options.indent_style == options.indent_style && fm.options.line_ending
            == crate::printer::LineEnding::Lf,
        crate::formatter::tokens_clean(crate::tree::node_tokens(*root)) ==> r is Ok,
        r is Err ==> !crate::formatter::tokens_clean(crate::tree::node_tokens(*root)),
{
    let style = JsCommentStyle;
    let mut f = Formatter::new();
    let el = match format_any_node(root, &mut f, &style) {
        Ok(e) => e,
        Err(e) => {
            return Err(e);
        },
    };
    Ok(Formatted { element: el, options: options.as_print_options() })
}

} // verus!
