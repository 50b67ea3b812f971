//! The comment engine: classifies every comment around a token and emits the
//! format IR that reproduces it — on its own line, inline, or deferred to the
//! end of the line.

use vstd::prelude::*;

use crate::builders::{comment, space_token};
use crate::format_element::{
    empty_element, token_text_ok, view_list, wf_element, wf_list, ElementView, FormatElement,
    LineMode,
};
use crate::syntax::SyntaxKind;

verus! {

/// The three ways a comment can relate to the line structure.
#[derive(Clone, Copy, PartialEq, Eq, Structural, Debug)]
pub enum CommentKind {
    /// A block comment spanning several lines; always set off on its own line.
    Block,
    /// A block comment without line breaks; may share a line with code.
    InlineBlock,
    /// A line comment; always ends its line.
    Line,
}

impl CommentKind {
    pub fn is_block(&self) -> (r: bool)
        ensures
            r == (*self == CommentKind::Block),
    {
        matches!(self, CommentKind::Block)
    }

    pub fn is_inline_block(&self) -> (r: bool)
        ensures
            r == (*self == CommentKind::InlineBlock),
    {
        matches!(self, CommentKind::InlineBlock)
    }

    pub fn is_line(&self) -> (r: bool)
        ensures
            r == (*self == CommentKind::Line),
    {
        matches!(self, CommentKind::Line)
    }
}

/// How a language classifies comments and grouping tokens.
pub trait CommentStyle {
    /// Which token kinds close a group of nodes.
    spec fn spec_end_grouping(&self, kind: SyntaxKind) -> bool;

    /// Which token kinds open a group of nodes.
    spec fn spec_start_grouping(&self, kind: SyntaxKind) -> bool;

    /// How a comment with the given text is classified.
    spec fn spec_comment_kind(&self, text: Seq<char>) -> CommentKind;

    /// The classification of a comment with the given text.
    fn comment_kind(&self, text: &str) -> (r: CommentKind)
        ensures
            r == self.spec_comment_kind(text@),
    ;

    /// True for a token that closes a group of nodes, such as a closing
    /// bracket, a comma or a semicolon.
    fn is_end_grouping_token(&self, kind: SyntaxKind) -> (r: bool)
        ensures
            r == self.spec_end_grouping(kind),
    ;

    /// True for a token that opens a group of nodes, such as an opening
    /// bracket.
    fn is_start_grouping_token(&self, kind: SyntaxKind) -> (r: bool)
        ensures
            r == self.spec_start_grouping(kind),
    ;
}

/// One comment collected from the trivia around a token: its text, how many
/// line breaks stood before it, and its classification.
#[derive(Debug)]
pub struct Comment {
    pub text: String,
    pub position: u32,
    pub lines_before: u32,
    pub kind: CommentKind,
}

/// The model of one collected comment.
pub struct CommentView {
    pub text: Seq<char>,
    pub position: u32,
    pub lines_before: u32,
    pub kind: CommentKind,
}

impl View for Comment {
    type V = CommentView;

    open spec fn view(&self) -> CommentView {
        CommentView {
            text: self.text@,
            position: self.position,
            lines_before: self.lines_before,
            kind: self.kind,
        }
    }
}

/// A comment on the same line as preceding content moves in front of a line
/// break when it is no block comment and does not follow an opening grouping
/// token.
pub open spec fn spec_should_move<S: CommentStyle>(
    style: S,
    prev_kind: Option<SyntaxKind>,
    c: CommentView,
) -> bool {
    &&& c.lines_before == 0
    &&& c.kind != CommentKind::Block
    &&& match prev_kind {
        Some(k) => !style.spec_start_grouping(k),
        None => true,
    }
}

/// A space stands before a same-line comment, except right after an opening
/// grouping token.
pub open spec fn spec_needs_space_before<S: CommentStyle>(
    style: S,
    prev_kind: Option<SyntaxKind>,
    c: CommentView,
) -> bool {
    ||| (c.kind == CommentKind::Line && c.lines_before == 0)
    ||| match prev_kind {
        Some(k) => !style.spec_start_grouping(k),
        None => true,
    }
}

/// A space follows the last same-line comment, except before a token that
/// closes a group; never after a multi-line block comment.
pub open spec fn spec_needs_space_after_last<S: CommentStyle>(
    style: S,
    token_kind: SyntaxKind,
    c: CommentView,
    lines_before_token: u32,
) -> bool {
    match c.kind {
        CommentKind::Block => false,
        _ => lines_before_token == 0 && !style.spec_end_grouping(token_kind),
    }
}

/// The comments standing between the previous token and the current one,
/// ready to be emitted before the current token's text.
#[derive(Debug)]
pub struct FormatPrecedingComments {
    /// The collected comments, in source order.
    pub comments: Vec<Comment>,
    /// Line breaks between the last comment (or the previous token) and the
    /// current token.
    pub lines_before_token: u32,
    /// The kind of the current token.
    pub token_kind: SyntaxKind,
    /// The kind of the previous token, if any.
    pub prev_kind: Option<SyntaxKind>,
}

/// The element one collected comment is emitted as. `next_lines` is the
/// number of line breaks after it (before the next comment, or before the
/// token for the last one).
pub open spec fn spec_comment_entry<S: CommentStyle>(
    style: S,
    prev_kind: Option<SyntaxKind>,
    token_kind: SyntaxKind,
    c: CommentView,
    next_lines: u32,
    is_last: bool,
    lines_before_token: u32,
) -> ElementView {
    let open: Seq<ElementView> = if c.lines_before == 0 || c.kind == CommentKind::InlineBlock {
        if spec_needs_space_before(style, prev_kind, c) {
            seq![ElementView::Space]
        } else {
            Seq::empty()
        }
    } else if c.lines_before == 1 {
        seq![ElementView::Line { line_mode: LineMode::Hard }]
    } else {
        seq![ElementView::Line { line_mode: LineMode::Empty }]
    };
    let txt = ElementView::List { content: comment_lines_view(c.text, 0, c.position) };
    let body = open.push(txt);
    let is_end_line = c.lines_before == 0 && c.kind == CommentKind::Line
        && style.spec_end_grouping(token_kind);
    let formatted = if is_end_line {
        ElementView::List {
            content: seq![
                ElementView::LineSuffix { content: seq![ElementView::List { content: body }] },
                ElementView::ExpandParent,
            ],
        }
    } else {
        let la: u32 = if c.kind == CommentKind::Block && next_lines == 0 {
            1u32
        } else {
            next_lines
        };
        let close: Seq<ElementView> = if la == 0 {
            if is_last && spec_needs_space_after_last(style, token_kind, c, lines_before_token) {
                seq![ElementView::Space]
            } else {
                Seq::empty()
            }
        } else if la == 1 {
            seq![ElementView::Line { line_mode: LineMode::Hard }]
        } else {
            seq![ElementView::Line { line_mode: LineMode::Empty }]
        };
        ElementView::List { content: body + close }
    };
    if spec_should_move(style, prev_kind, c) {
        ElementView::Comment { content: seq![formatted] }
    } else {
        formatted
    }
}

/// The elements a whole run of collected comments is emitted as.
pub open spec fn spec_comment_entries<S: CommentStyle>(
    style: S,
    prev_kind: Option<SyntaxKind>,
    token_kind: SyntaxKind,
    comments: Seq<CommentView>,
    lines_before_token: u32,
) -> Seq<ElementView> {
    Seq::new(
        comments.len(),
        |i: int|
            spec_comment_entry(
                style,
                prev_kind,
                token_kind,
                comments[i],
                if i + 1 < comments.len() {
                    comments[i + 1].lines_before
                } else {
                    lines_before_token
                },
                i == comments.len() - 1,
                lines_before_token,
            ),
    )
}

impl FormatPrecedingComments {
    pub fn new(
        comments: Vec<Comment>,
        lines_before_token: u32,
        token_kind: SyntaxKind,
        prev_kind: Option<SyntaxKind>,
    ) -> (r: FormatPrecedingComments)
        ensures
            r.comments == comments,
            r.lines_before_token == lines_before_token,
            r.token_kind == token_kind,
            r.prev_kind == prev_kind,
    {
        FormatPrecedingComments { comments, lines_before_token, token_kind, prev_kind }
    }

    /// A comment that stands on the same line as preceding content moves in
    /// front of a line break when it is no block comment and does not follow
    /// an opening grouping token: it then belongs to what came before, not to
    /// the group that follows.
    pub fn should_move_comment_before_line_break<S: CommentStyle>(
        &self,
        style: &S,
        c: &Comment,
    ) -> (r: bool)
        ensures
            r == spec_should_move(*style, self.prev_kind, c@),
    {
        if c.lines_before != 0 {
            return false;
        }
        if c.kind.is_block() {
            return false;
        }
        match self.prev_kind {
            Some(k) => !style.is_start_grouping_token(k),
            None => true,
        }
    }

    /// A space stands before a same-line comment, except right after an
    /// opening grouping token.
    pub fn needs_space_before_comment<S: CommentStyle>(&self, style: &S, c: &Comment) -> (r:
        bool)
        ensures
            r == spec_needs_space_before(*style, self.prev_kind, c@),
    {
        if c.kind.is_line() && c.lines_before == 0 {
            return true;
        }
        match self.prev_kind {
            Some(k) => !style.is_start_grouping_token(k),
            None => true,
        }
    }

    /// A space follows the last same-line comment, except before a token
    /// that closes a group.
    pub fn needs_space_after_last_comment<S: CommentStyle>(
        &self,
        style: &S,
        c: &Comment,
        lines_before_token: u32,
    ) -> (r: bool)
        ensures
            r == spec_needs_space_after_last(*style, self.token_kind, c@, lines_before_token),
    {
        match c.kind {
            CommentKind::Block => false,
            CommentKind::InlineBlock | CommentKind::Line => {
                if lines_before_token == 0 {
                    !style.is_end_grouping_token(self.token_kind)
                } else {
                    false
                }
            },
        }
    }

    /// Emits the collected comments: a same-line comment keeps its line, with
    /// spaces as needed; a comment after one line break gets its own line; a
    /// comment after a blank line keeps the blank line; a line comment before
    /// a group-closing token is deferred to the end of the line and expands
    /// the enclosing group; block comments always force a line break after
    /// themselves. Comments that may move in front of a line break are
    /// marked as comment elements, which group and join builders hoist.
    #[verifier::loop_isolation(false)]
    #[verifier::rlimit(100)]
    pub fn format<S: CommentStyle>(&self, style: &S) -> (r: FormatElement)
        ensures
            wf_element(r@),
            r@ matches ElementView::List { content } && content =~= spec_comment_entries(
                *style,
                self.prev_kind,
                self.token_kind,
                self.comments@.map(|q: int, c: Comment| c@),
                self.lines_before_token,
            ),
    {
        let ghost cviews = self.comments@.map(|q: int, c: Comment| c@);
        let n = self.comments.len();
        if n == 0 {
            let r = empty_element();
            proof {
                assert(spec_comment_entries(
                    *style,
                    self.prev_kind,
                    self.token_kind,
                    cviews,
                    self.lines_before_token,
                ) =~= Seq::<ElementView>::empty());
            }
            return r;
        }
        let mut out: Vec<FormatElement> = Vec::new();
        proof {
            crate::format_element::lemma_view_list_len_all();
            assert(wf_list(view_list(out@)));
        }
        let mut i: usize = 0;
        while i < n
            invariant
                i <= n,
                n == self.comments@.len(),
                wf_list(view_list(out@)),
                view_list(out@) =~= spec_comment_entries(
                    *style,
                    self.prev_kind,
                    self.token_kind,
                    cviews,
                    self.lines_before_token,
                ).take(i as int),
            decreases n - i,
        {
            let ghost nextlv: u32 = if i + 1 < n {
                cviews[i as int + 1].lines_before
            } else {
                self.lines_before_token
            };
            let ghost entry_spec = spec_comment_entry(
                *style,
                self.prev_kind,
                self.token_kind,
                cviews[i as int],
                nextlv,
                i as int == n as int - 1,
                self.lines_before_token,
            );
            let c = &self.comments[i];
            let ghost cv = cviews[i as int];
            let ghost openv: Seq<ElementView> = if cv.lines_before == 0 || cv.kind
                == CommentKind::InlineBlock {
                if spec_needs_space_before(*style, self.prev_kind, cv) {
                    seq![ElementView::Space]
                } else {
                    Seq::<ElementView>::empty()
                }
            } else if cv.lines_before == 1 {
                seq![ElementView::Line { line_mode: LineMode::Hard }]
            } else {
                seq![ElementView::Line { line_mode: LineMode::Empty }]
            };
            proof {
                assert(cv == c@);
            }
            let mut parts: Vec<FormatElement> = Vec::new();
            proof {
                assert(wf_list(view_list(parts@)));
            }
            let move_before_line_break: bool;
            if c.lines_before == 0 || c.kind.is_inline_block() {
                move_before_line_break = self.should_move_comment_before_line_break(style, c);
                if self.needs_space_before_comment(style, c) {
                    push_wf(&mut parts, space_token());
                }
            } else {
                move_before_line_break = false;
                if c.lines_before == 1 {
                    push_wf(&mut parts, crate::builders::hard_line_break());
                } else {
                    push_wf(&mut parts, crate::builders::empty_line());
                }
            }
            proof {
                assert(view_list(parts@) =~= openv);
            }
            push_wf(&mut parts, comment_text_token(&c.text, c.position));
            let ghost bodyv = openv.push(
                ElementView::List { content: comment_lines_view(cv.text, 0, cv.position) },
            );
            proof {
                assert(view_list(parts@) =~= bodyv);
            }
            let is_end_line_comment = c.lines_before == 0 && c.kind.is_line()
                && style.is_end_grouping_token(self.token_kind);
            let formatted: FormatElement;
            if is_end_line_comment {
                let ghost partsv = view_list(parts@);
                let inner = FormatElement::List { content: parts };
                let ghost innerv = inner@;
                proof {
                    assert(innerv matches ElementView::List { content: ic } && ic == partsv);
                    assert(partsv =~= bodyv);
                    assert(innerv == ElementView::List { content: bodyv });
                }
                let mut wrapped: Vec<FormatElement> = Vec::new();
                push_wf(&mut wrapped, crate::builders::line_suffix(inner));
                push_wf(&mut wrapped, crate::builders::expand_parent());
                formatted = FormatElement::List { content: wrapped };
                proof {
                    assert(view_list(wrapped@) =~= seq![
                        ElementView::LineSuffix { content: seq![innerv] },
                        ElementView::ExpandParent,
                    ]);
                    assert(formatted@ matches ElementView::List { content: fc } && fc
                        == view_list(wrapped@));
                }
            } else {
                let mut lines_after: u32 = if i + 1 < n {
                    self.comments[i + 1].lines_before
                } else {
                    self.lines_before_token
                };
                if c.kind.is_block() && lines_after == 0 {
                    lines_after = 1;
                }
                if lines_after == 0 {
                    if i + 1 == n && self.needs_space_after_last_comment(
                        style,
                        c,
                        self.lines_before_token,
                    ) {
                        push_wf(&mut parts, space_token());
                    }
                } else if lines_after == 1 {
                    push_wf(&mut parts, crate::builders::hard_line_break());
                } else {
                    push_wf(&mut parts, crate::builders::empty_line());
                }
                let ghost closedv = view_list(parts@);
                let ghost lav: u32 = if cv.kind == CommentKind::Block && nextlv == 0 {
                    1u32
                } else {
                    nextlv
                };
                let ghost closev: Seq<ElementView> = if lav == 0 {
                    if i as int == n as int - 1 && spec_needs_space_after_last(
                        *style,
                        self.token_kind,
                        cv,
                        self.lines_before_token,
                    ) {
                        seq![ElementView::Space]
                    } else {
                        Seq::<ElementView>::empty()
                    }
                } else if lav == 1 {
                    seq![ElementView::Line { line_mode: LineMode::Hard }]
                } else {
                    seq![ElementView::Line { line_mode: LineMode::Empty }]
                };
                formatted = FormatElement::List { content: parts };
                proof {
                    assert(closedv =~= bodyv + closev);
                    assert(formatted@ matches ElementView::List { content: fc } && fc == closedv);
                    assert(formatted@ == ElementView::List { content: bodyv + closev });
                }
            }
            if move_before_line_break {
                let wrapped = comment(formatted);
                proof {
                    assert(spec_should_move(*style, self.prev_kind, cv));
                    assert(entry_spec matches ElementView::Comment { .. });
                    assert(wrapped@ matches ElementView::Comment { content: wc } && wc =~= seq![
                        formatted@,
                    ]);
                    assert(wrapped@ =~= entry_spec);
                }
                push_wf(&mut out, wrapped);
            } else {
                proof {
                    assert(formatted@ =~= entry_spec);
                }
                push_wf(&mut out, formatted);
            }
            i = i + 1;
        }
        proof {
            assert(view_list(out@) =~= spec_comment_entries(
                *style,
                self.prev_kind,
                self.token_kind,
                cviews,
                self.lines_before_token,
            ));
        }
        FormatElement::List { content: out }
    }
}

/// Appends a well-formed element to a well-formed element list.
fn push_wf(v: &mut Vec<FormatElement>, e: FormatElement)
    requires
        wf_list(view_list(old(v)@)),
        wf_element(e@),
    ensures
        wf_list(view_list(final(v)@)),
        view_list(final(v)@) == view_list(old(v)@).push(e@),
{
    let ghost ev = e@;
    v.push(e);
    proof {
        crate::format_element::lemma_view_list_len_all();
        assert(view_list(v@) =~= view_list(old(v)@).push(ev));
        crate::format_element::lemma_wf_list_push(view_list(old(v)@), ev);
    }
}

/// The characters of the text without carriage returns.
pub open spec fn strip_cr(t: Seq<char>) -> Seq<char>
    decreases t,
{
    if t.len() == 0 {
        Seq::empty()
    } else if t.last() == '\r' {
        strip_cr(t.drop_last())
    } else {
        strip_cr(t.drop_last()).push(t.last())
    }
}

/// Stripped text never holds a line or carriage-return character when the
/// source range held no line break.
pub proof fn lemma_strip_cr_ok(t: Seq<char>)
    requires
        forall|i: int| 0 <= i < t.len() ==> t[i] != '\n',
    ensures
        token_text_ok(strip_cr(t)),
        strip_cr(t).len() <= t.len(),
    decreases t,
{
    if t.len() > 0 {
        assert forall|i: int| 0 <= i < t.drop_last().len() implies t.drop_last()[i] != '\n' by {
            assert(t.drop_last()[i] == t[i]);
        }
        lemma_strip_cr_ok(t.drop_last());
    }
}

/// The elements a comment text prints as, from position `i` on: the text of
/// each line as a token (carriage returns dropped), lines separated by hard
/// line breaks.
pub open spec fn comment_lines_view(t: Seq<char>, i: int, pos: u32) -> Seq<ElementView>
    decreases t.len() - i,
    when 0 <= i <= t.len()
    via comment_lines_view_dec
{
    let k = crate::suppression::find_char(t, i, t.len() as int, '\n');
    let tok = ElementView::Token { text: strip_cr(t.subrange(i, k)), source_position: Some(pos) };
    if k == t.len() {
        seq![tok]
    } else {
        seq![tok, ElementView::Line { line_mode: LineMode::Hard }] + comment_lines_view(
            t,
            k + 1,
            pos,
        )
    }
}

#[via_fn]
proof fn comment_lines_view_dec(t: Seq<char>, i: int, pos: u32) {
    crate::suppression::lemma_find_char_bounds(t, i, t.len() as int, '\n');
}

/// The text of a comment as a token element. Comment text that carries line
/// breaks (a multi-line block comment) keeps them: the lines are emitted
/// separated by hard line elements, each line's text a token of its own.
#[verifier::loop_isolation(false)]
pub fn comment_text_token(text: &String, position: u32) -> (r: FormatElement)
    ensures
        wf_element(r@),
        r@ == (ElementView::List { content: comment_lines_view(text@, 0, position) }),
{
    let chars = crate::suppression::chars_of(text.as_str());
    let n = chars.len();
    let mut parts: Vec<FormatElement> = Vec::new();
    proof {
        crate::format_element::lemma_view_list_len_all();
        assert(wf_list(view_list(parts@)));
        assert(comment_lines_view(chars@, 0, position) =~= view_list(parts@)
            + comment_lines_view(chars@, 0, position));
    }
    let mut start: usize = 0;
    let mut i: usize = 0;
    while i < n
        invariant
            start <= i <= n,
            n == chars@.len(),
            wf_list(view_list(parts@)),
            forall|j: int| start <= j < i ==> chars@[j] != '\n',
            comment_lines_view(chars@, 0, position) =~= view_list(parts@) + comment_lines_view(
                chars@,
                start as int,
                position,
            ),
        decreases n - i,
    {
        if chars[i] == '\n' {
            proof {
                crate::suppression::lemma_find_char_at(
                    chars@,
                    start as int,
                    i as int,
                    n as int,
                    '\n',
                );
            }
            let line = line_token(&chars, start, i, position);
            push_wf(&mut parts, line);
            push_wf(&mut parts, crate::builders::hard_line_break());
            start = i + 1;
        }
        i = i + 1;
    }
    proof {
        crate::suppression::lemma_find_char_at(chars@, start as int, n as int, n as int, '\n');
    }
    let last = line_token(&chars, start, n, position);
    let ghost lastv = last@;
    push_wf(&mut parts, last);
    proof {
        assert(comment_lines_view(chars@, start as int, position) =~= seq![lastv]);
        assert(view_list(parts@) =~= comment_lines_view(chars@, 0, position));
        assert(chars@ == text@);
    }
    FormatElement::List { content: parts }
}

/// One line of comment text as a token element, carriage returns dropped.
#[verifier::loop_isolation(false)]
fn line_token(chars: &Vec<char>, start: usize, end: usize, position: u32) -> (r: FormatElement)
    requires
        start <= end <= chars@.len(),
        forall|j: int| start <= j < end ==> chars@[j] != '\n',
    ensures
        wf_element(r@),
        r@ == (ElementView::Token {
            text: strip_cr(chars@.subrange(start as int, end as int)),
            source_position: Some(position),
        }),
{
    let mut v: Vec<char> = Vec::new();
    let mut k = start;
    proof {
        assert(v@ =~= strip_cr(chars@.subrange(start as int, start as int)));
    }
    while k < end
        invariant
            start <= k <= end,
            v@ =~= strip_cr(chars@.subrange(start as int, k as int)),
        decreases end - k,
    {
        let c = chars[k];
        let ghost pre = chars@.subrange(start as int, k as int);
        if c != '\r' {
            v.push(c);
        }
        proof {
            assert(chars@.subrange(start as int, k + 1).drop_last() =~= pre);
            assert(chars@.subrange(start as int, k + 1).last() == chars@[k as int]);
        }
        k = k + 1;
    }
    let text = crate::suppression::chars_to_string_pub(&v);
    proof {
        lemma_strip_cr_ok(chars@.subrange(start as int, end as int));
        assert(token_text_ok(text@));
    }
    FormatElement::Token { text, source_position: Some(position) }
}

} // verus!
