//! The formatter: tracks the previous token while the tree is being
//! formatted, so that the comments between two tokens are attached and
//! emitted exactly once, before the token that follows them.

use vstd::prelude::*;

use crate::builders::{FillBuilder, JoinBuilder, JoinNodesBuilder};
use crate::comments::{Comment, CommentStyle, FormatPrecedingComments};
use crate::format_element::{wf_element, FormatElement, GroupId};
use crate::suppression::string_of_range_pub;
use crate::syntax::{SyntaxKind, SyntaxToken, TriviaPiece, TriviaPieceKind};

verus! {

broadcast use vstd::std_specs::vec::axiom_vec_decreases_to_view, vstd::seq::axiom_seq_index_decreases;

/// A failure while formatting.
#[derive(Clone, Copy, PartialEq, Eq, Structural, Debug)]
pub enum FormatError {
    /// The source held skipped (unparsed) text; the affected range cannot be
    /// formatted.
    SyntaxError,
}

/// The state carried across the formatting of one document.
pub struct Formatter {
    /// The last token formatted: the next token's leading comments include
    /// the trailing comments of this one.
    pub prev: Option<SyntaxToken>,
    /// The next fresh group identifier.
    pub next_group_id: u32,
}

/// A snapshot of the formatter state, for backtracking.
pub struct FormatterSnapshot {
    pub prev: Option<SyntaxToken>,
    pub next_group_id: u32,
}

/// Two optional previous tokens carry the same data.
pub open spec fn same_prev(a: Option<SyntaxToken>, b: Option<SyntaxToken>) -> bool {
    match (a, b) {
        (Some(x), Some(y)) => x.same_token(y),
        (None, None) => true,
        _ => false,
    }
}

impl Formatter {
    pub fn new() -> (r: Formatter)
        ensures
            r.prev is None,
            r.next_group_id == 0,
    {
        Formatter { prev: None, next_group_id: 0 }
    }

    /// A fresh group identifier, unique within this document.
    pub fn group_id(&mut self, _debug_name: &str) -> (r: GroupId)
        ensures
            r.id == old(self).next_group_id,
            final(self).next_group_id == old(self).next_group_id + 1 || final(self).next_group_id
                == old(self).next_group_id,
            final(self).prev == old(self).prev,
    {
        let id = self.next_group_id;
        if self.next_group_id < u32::MAX {
            self.next_group_id = self.next_group_id + 1;
        }
        GroupId { id }
    }

    /// A snapshot of the whole formatter state: the previous token and the
    /// group id counter.
    pub fn state_snapshot(&self) -> (r: FormatterSnapshot)
        ensures
            r.next_group_id == self.next_group_id,
            same_prev(r.prev, self.prev),
            match self.prev {
                Some(t) => t.wf() ==> (r.prev matches Some(t2) && t2.wf()),
                None => r.prev is None,
            },
    {
        FormatterSnapshot {
            prev: match &self.prev {
                Some(t) => Some(t.clone_token()),
                None => None,
            },
            next_group_id: self.next_group_id,
        }
    }

    /// Restores a previously taken snapshot: the formatter state becomes
    /// exactly the snapshot's, every change since it undone.
    pub fn restore_state_snapshot(&mut self, snapshot: FormatterSnapshot)
        ensures
            final(self).next_group_id == snapshot.next_group_id,
            final(self).prev == snapshot.prev,
    {
        self.prev = snapshot.prev;
        self.next_group_id = snapshot.next_group_id;
    }

    /// A join of entries without separator.
    pub fn join(&self) -> (r: JoinBuilder)
        ensures
            r.wf(),
    {
        JoinBuilder::new()
    }

    /// A join of entries with the given separator between every two.
    pub fn join_with(&self, separator: FormatElement) -> (r: JoinBuilder)
        ensures
            r.wf(),
            r.wf_elements(),
            wf_element(separator@) ==> r.sep_wf(),
    {
        JoinBuilder::with_separator(separator)
    }

    /// A join of nodes separated by hard line breaks, keeping blank lines.
    pub fn join_nodes_with_hardline(&self) -> (r: JoinNodesBuilder)
        ensures
            r.wf_elements(),
            r.sep_wf(),
            !r.has_elements,
            r.separator@ == (crate::format_element::ElementView::Line {
                line_mode: crate::format_element::LineMode::Hard,
            }),
    {
        JoinNodesBuilder::new(crate::builders::hard_line_break())
    }

    /// A join of nodes separated by soft line breaks or spaces, keeping
    /// blank lines.
    pub fn join_nodes_with_soft_line(&self) -> (r: JoinNodesBuilder)
        ensures
            r.wf_elements(),
            r.sep_wf(),
            !r.has_elements,
            r.separator@ == (crate::format_element::ElementView::Line {
                line_mode: crate::format_element::LineMode::SoftOrSpace,
            }),
    {
        JoinNodesBuilder::new(crate::builders::soft_line_break_or_space())
    }

    /// A fill with the given separator.
    pub fn fill(&self, separator: FormatElement) -> (r: FillBuilder) {
        FillBuilder::new(separator)
    }

    /// An interned (shared, immutable) element wrapping the content.
    pub fn intern(&self, content: FormatElement) -> (r: FormatElement)
        ensures
            r@ matches crate::format_element::ElementView::Interned { element } && *element
                == content@,
            wf_element(content@) ==> wf_element(r@),
    {
        content.intern()
    }

    /// Collects the comments standing before `token`: the trailing trivia of
    /// the previous token followed by the token's own leading trivia, with
    /// the number of line breaks before each comment and after the last one:
    /// exactly `spec_collect_comments`. A skipped trivia piece is a syntax
    /// error.
    #[verifier::loop_isolation(false)]
    fn collect_comments<S: CommentStyle>(
        &self,
        token: &SyntaxToken,
        style: &S,
    ) -> (r: Result<(Vec<Comment>, u32), FormatError>)
        requires
            token.wf(),
            match self.prev {
                Some(t) => t.wf(),
                None => true,
            },
        ensures
            match spec_collect_comments(*style, self.prev, *token) {
                Some((cs, lines)) => r matches Ok((v, l)) && l == lines && v@.map(
                    |q: int, c: Comment| c@,
                ) =~= cs,
                None => r matches Err(e) && e == FormatError::SyntaxError,
            },
    {
        let mut comments: Vec<Comment> = Vec::new();
        let mut lines: u32 = 0;
        proof {
            assert(comments@.map(|q: int, c: Comment| c@) =~= Seq::<
                crate::comments::CommentView,
            >::empty());
        }
        match &self.prev {
            Some(p) => {
                proof {
                    crate::syntax::lemma_trivia_len_parts(p.leading@);
                    crate::syntax::lemma_trivia_len_parts(p.trailing@);
                }
                let mut cursor: usize = p.text.as_str().unicode_len() - p.trailing_len() as usize;
                let m = p.trailing.len();
                let mut i: usize = 0;
                while i < m
                    invariant
                        i <= m,
                        m == p.trailing@.len(),
                        cursor <= p.text@.len(),
                        spec_collect(
                            *style,
                            p.text@,
                            p.trailing@,
                            0,
                            p.text@.len() - crate::syntax::trivia_len(p.trailing@),
                            p.offset,
                            0,
                            Seq::empty(),
                        ) == spec_collect(
                            *style,
                            p.text@,
                            p.trailing@,
                            i as int,
                            cursor as int,
                            p.offset,
                            lines,
                            comments@.map(|q: int, c: Comment| c@),
                        ),
                    decreases m - i,
                {
                    let piece = p.trailing[i];
                    let plen = piece.length as usize;
                    let n_text = p.text.as_str().unicode_len();
                    let pend = if cursor <= n_text && plen <= n_text - cursor {
                        cursor + plen
                    } else {
                        n_text
                    };
                    let pstart = if cursor <= pend {
                        cursor
                    } else {
                        pend
                    };
                    let ghost pre_views = comments@.map(|q: int, c: Comment| c@);
                    match piece.kind {
                        TriviaPieceKind::Newline => {
                            if lines < u32::MAX {
                                lines = lines + 1;
                            }
                        },
                        TriviaPieceKind::SingleLineComment | TriviaPieceKind::MultiLineComment => {
                            let chars = crate::suppression::chars_of(p.text.as_str());
                            let text = string_of_range_pub(&chars, pstart, pend);
                            let kind = style.comment_kind(text.as_str());
                            let c = Comment {
                                text,
                                position: p.offset,
                                lines_before: lines,
                                kind,
                            };
                            let ghost cv = c@;
                            comments.push(c);
                            lines = 0;
                            proof {
                                assert(comments@.map(|q: int, c: Comment| c@) =~= pre_views.push(
                                    cv,
                                ));
                            }
                        },
                        TriviaPieceKind::Whitespace => {},
                        TriviaPieceKind::Skipped => {
                            return Err(FormatError::SyntaxError);
                        },
                    }
                    cursor = pend;
                    i = i + 1;
                }
            },
            None => {},
        }
        let ghost mid_views = comments@.map(|q: int, c: Comment| c@);
        let ghost mid_lines = lines;
        proof {
            if self.prev is None {
                assert(mid_views =~= Seq::<crate::comments::CommentView>::empty());
            }
            assert(spec_collect_comments(*style, self.prev, *token) == spec_collect(
                *style,
                token.text@,
                token.leading@,
                0,
                0,
                token.offset,
                mid_lines,
                mid_views,
            ));
        }
        let mut cursor: usize = 0;
        let m = token.leading.len();
        let mut i: usize = 0;
        proof {
            crate::syntax::lemma_trivia_len_parts(token.leading@);
            crate::syntax::lemma_trivia_len_parts(token.trailing@);
        }
        while i < m
            invariant
                i <= m,
                m == token.leading@.len(),
                cursor <= token.text@.len(),
                spec_collect(
                    *style,
                    token.text@,
                    token.leading@,
                    0,
                    0,
                    token.offset,
                    mid_lines,
                    mid_views,
                ) == spec_collect(
                    *style,
                    token.text@,
                    token.leading@,
                    i as int,
                    cursor as int,
                    token.offset,
                    lines,
                    comments@.map(|q: int, c: Comment| c@),
                ),
            decreases m - i,
        {
            let piece = token.leading[i];
            let plen = piece.length as usize;
            let n_text = token.text.as_str().unicode_len();
            let pend = if cursor <= n_text && plen <= n_text - cursor {
                cursor + plen
            } else {
                n_text
            };
            let pstart = if cursor <= pend {
                cursor
            } else {
                pend
            };
            let ghost pre_views = comments@.map(|q: int, c: Comment| c@);
            match piece.kind {
                TriviaPieceKind::Newline => {
                    if lines < u32::MAX {
                        lines = lines + 1;
                    }
                },
                TriviaPieceKind::SingleLineComment | TriviaPieceKind::MultiLineComment => {
                    let chars = crate::suppression::chars_of(token.text.as_str());
                    let text = string_of_range_pub(&chars, pstart, pend);
                    let kind = style.comment_kind(text.as_str());
                    let c = Comment { text, position: token.offset, lines_before: lines, kind };
                    let ghost cv = c@;
                    comments.push(c);
                    lines = 0;
                    proof {
                        assert(comments@.map(|q: int, c: Comment| c@) =~= pre_views.push(cv));
                    }
                },
                TriviaPieceKind::Whitespace => {},
                TriviaPieceKind::Skipped => {
                    return Err(FormatError::SyntaxError);
                },
            }
            cursor = pend;
            i = i + 1;
        }
        Ok((comments, lines))
    }

    /// Formats a token: the comments standing before it (emitted per
    /// `spec_comment_entries`), then its trimmed text as a token element.
    /// The token becomes the previous token of the formatter. A skipped
    /// trivia piece among the comments is a syntax error, and the error
    /// leaves the formatter unchanged.
    #[verifier::loop_isolation(false)]
    pub fn format_token<S: CommentStyle>(
        &mut self,
        token: &SyntaxToken,
        style: &S,
    ) -> (r: Result<FormatElement, FormatError>)
        requires
            token.wf(),
            match old(self).prev {
                Some(t) => t.wf(),
                None => true,
            },
        ensures
            match spec_collect_comments(*style, old(self).prev, *token) {
                Some((cs, lines)) => {
                    &&& r matches Ok(e) && e@ == (crate::format_element::ElementView::List {
                        content: crate::comments::spec_comment_entries(
                            *style,
                            spec_prev_kind(old(self).prev),
                            token.kind,
                            cs,
                            lines,
                        ).push(
                            crate::format_element::ElementView::List {
                                content: crate::comments::comment_lines_view(
                                    token.text@.subrange(
                                        token.spec_trim_start(),
                                        token.spec_trim_end(),
                                    ),
                                    0,
                                    (token.offset + token.spec_trim_start()) as u32,
                                ),
                            },
                        ),
                    })
                    &&& final(self).prev matches Some(t) && t.same_token(*token) && t.wf()
                },
                None => r matches Err(e) && e == FormatError::SyntaxError && final(self).prev
                    == old(self).prev,
            },
            r matches Ok(e) ==> wf_element(e@),
            match final(self).prev {
                Some(t) => t.wf(),
                None => true,
            },
    {
        let (comments, lines) = match self.collect_comments(token, style) {
            Ok(x) => x,
            Err(e) => {
                return Err(e);
            },
        };
        let prev_kind = match &self.prev {
            Some(p) => Some(p.kind),
            None => None,
        };
        let fpc = FormatPrecedingComments::new(comments, lines, token.kind, prev_kind);
        let cm = fpc.format(style);
        let ghost entries = match cm@ {
            crate::format_element::ElementView::List { content } => content,
            _ => Seq::empty(),
        };
        let trimmed = token.token_text_trimmed();
        let a = token.leading_len();
        proof {
            crate::syntax::lemma_trivia_len_parts(token.leading@);
            crate::syntax::lemma_trivia_len_parts(token.trailing@);
        }
        let text_el = crate::comments::comment_text_token(&trimmed, token.offset + a);
        let ghost tev = text_el@;
        self.prev = Some(token.clone_token());
        let mut parts: Vec<FormatElement> = Vec::new();
        proof {
            crate::format_element::lemma_view_list_len_all();
            assert(crate::format_element::wf_list(crate::format_element::view_list(parts@)));
        }
        match cm {
            FormatElement::List { content: mut cm_items } => {
                while cm_items.len() > 0
                    invariant
                        crate::format_element::wf_list(crate::format_element::view_list(parts@)),
                        crate::format_element::wf_list(crate::format_element::view_list(
                            cm_items@,
                        )),
                        crate::format_element::view_list(parts@)
                            + crate::format_element::view_list(cm_items@) =~= entries,
                    decreases cm_items.len(),
                {
                    let ghost pre = crate::format_element::view_list(cm_items@);
                    let ghost pre_parts = crate::format_element::view_list(parts@);
                    let x = cm_items.remove(0);
                    proof {
                        crate::format_element::lemma_view_list_len_all();
                        assert(crate::format_element::view_list(cm_items@) =~= pre.drop_first());
                        assert(pre.first() == x@);
                    }
                    push_wf_el(&mut parts, x);
                    proof {
                        assert(crate::format_element::view_list(parts@) =~= pre_parts.push(
                            pre.first(),
                        ));
                        assert(crate::format_element::view_list(parts@)
                            + crate::format_element::view_list(cm_items@) =~= entries);
                    }
                }
            },
            _ => {
                proof {
                    assert(false);
                }
            },
        }
        push_wf_el(&mut parts, text_el);
        proof {
            assert(crate::format_element::view_list(parts@) =~= entries.push(tev));
        }
        Ok(FormatElement::List { content: parts })
    }

    /// Formats a token that closes an empty construct, with its comments
    /// emitted inline (dangling comments): the comment texts separated by
    /// single spaces, then the token's trimmed text, with no line structure
    /// kept. The token becomes the previous token; a skipped trivia piece is
    /// a syntax error and leaves the formatter unchanged.
    #[verifier::loop_isolation(false)]
    pub fn format_token_dangling<S: CommentStyle>(
        &mut self,
        token: &SyntaxToken,
        style: &S,
    ) -> (r: Result<FormatElement, FormatError>)
        requires
            token.wf(),
            match old(self).prev {
                Some(t) => t.wf(),
                None => true,
            },
        ensures
            match spec_collect_comments(*style, old(self).prev, *token) {
                Some((cs, lines)) => {
                    &&& r matches Ok(e) && e@ == (crate::format_element::ElementView::List {
                        content: spec_dangling_comments(cs).push(
                            crate::format_element::ElementView::List {
                                content: crate::comments::comment_lines_view(
                                    token.text@.subrange(
                                        token.spec_trim_start(),
                                        token.spec_trim_end(),
                                    ),
                                    0,
                                    (token.offset + token.spec_trim_start()) as u32,
                                ),
                            },
                        ),
                    })
                    &&& final(self).prev matches Some(t) && t.same_token(*token) && t.wf()
                },
                None => r matches Err(e) && e == FormatError::SyntaxError && final(self).prev
                    == old(self).prev,
            },
            r matches Ok(e) ==> wf_element(e@),
            match final(self).prev {
                Some(t) => t.wf(),
                None => true,
            },
    {
        let (comments, _lines) = match self.collect_comments(token, style) {
            Ok(x) => x,
            Err(e) => {
                return Err(e);
            },
        };
        let ghost cs = comments@.map(|q: int, c: Comment| c@);
        let mut parts: Vec<FormatElement> = Vec::new();
        proof {
            crate::format_element::lemma_view_list_len_all();
            assert(crate::format_element::wf_list(crate::format_element::view_list(parts@)));
            assert(crate::format_element::view_list(parts@) =~= spec_dangling_comments(
                cs.take(0),
            ));
        }
        let n = comments.len();
        let mut i: usize = 0;
        while i < n
            invariant
                i <= n,
                n == comments@.len(),
                n == cs.len(),
                forall|q: int| 0 <= q < n ==> (#[trigger] comments@[q])@ == cs[q],
                crate::format_element::wf_list(crate::format_element::view_list(parts@)),
                crate::format_element::view_list(parts@) =~= spec_dangling_comments(
                    cs.take(i as int),
                ),
            decreases n - i,
        {
            proof {
                assert(cs.take(i + 1).drop_last() =~= cs.take(i as int));
                assert(cs.take(i + 1).last() == cs[i as int]);
            }
            if i > 0 {
                push_wf_el(&mut parts, crate::builders::space_token());
            }
            let c = &comments[i];
            push_wf_el(&mut parts, crate::comments::comment_text_token(&c.text, c.position));
            proof {
                assert(crate::format_element::view_list(parts@) =~= spec_dangling_comments(
                    cs.take(i + 1),
                ));
            }
            i = i + 1;
        }
        proof {
            assert(cs.take(n as int) =~= cs);
        }
        let trimmed = token.token_text_trimmed();
        let a = token.leading_len();
        proof {
            crate::syntax::lemma_trivia_len_parts(token.leading@);
            crate::syntax::lemma_trivia_len_parts(token.trailing@);
        }
        push_wf_el(&mut parts, crate::comments::comment_text_token(&trimmed, token.offset + a));
        self.prev = Some(token.clone_token());
        Ok(FormatElement::List { content: parts })
    }
}

/// The inline (dangling) emission of collected comments: each comment's
/// text as a token, single spaces between consecutive comments, nothing at
/// the edges.
pub open spec fn spec_dangling_comments(cs: Seq<crate::comments::CommentView>) -> Seq<
    crate::format_element::ElementView,
>
    decreases cs,
{
    if cs.len() == 0 {
        Seq::empty()
    } else if cs.len() == 1 {
        seq![
            crate::format_element::ElementView::List {
                content: crate::comments::comment_lines_view(cs[0].text, 0, cs[0].position),
            },
        ]
    } else {
        spec_dangling_comments(cs.drop_last()) + seq![
            crate::format_element::ElementView::Space,
            crate::format_element::ElementView::List {
                content: crate::comments::comment_lines_view(cs.last().text, 0, cs.last().position),
            },
        ]
    }
}

/// Appends a well-formed element to a well-formed element list.
fn push_wf_el(v: &mut Vec<FormatElement>, e: FormatElement)
    requires
        crate::format_element::wf_list(crate::format_element::view_list(old(v)@)),
        wf_element(e@),
    ensures
        crate::format_element::wf_list(crate::format_element::view_list(final(v)@)),
        crate::format_element::view_list(final(v)@) == crate::format_element::view_list(
            old(v)@,
        ).push(e@),
{
    let ghost ev = e@;
    v.push(e);
    proof {
        crate::format_element::lemma_view_list_len_all();
        assert(crate::format_element::view_list(v@) =~= crate::format_element::view_list(
            old(v)@,
        ).push(ev));
        crate::format_element::lemma_wf_list_push(crate::format_element::view_list(old(v)@), ev);
    }
}

} // verus!

verus! {

/// One step of comment collection over a token's trivia pieces: `i` is the
/// piece index, `cur` the character cursor inside the owner's text, `lines`
/// the line breaks seen since the last comment, `acc` the comments so far.
/// A skipped piece means unparsed source text: collection fails.
pub open spec fn spec_collect<S: CommentStyle>(
    style: S,
    text: Seq<char>,
    pieces: Seq<TriviaPiece>,
    i: int,
    cur: int,
    owner_offset: u32,
    lines: u32,
    acc: Seq<crate::comments::CommentView>,
) -> Option<(Seq<crate::comments::CommentView>, u32)>
    decreases pieces.len() - i,
{
    if i < 0 || i >= pieces.len() {
        Some((acc, lines))
    } else {
        let b = if cur <= text.len() && pieces[i].length <= text.len() - cur {
            cur + pieces[i].length
        } else {
            text.len() as int
        };
        let a = if cur <= b {
            cur
        } else {
            b
        };
        match pieces[i].kind {
            TriviaPieceKind::Newline => spec_collect(
                style,
                text,
                pieces,
                i + 1,
                b,
                owner_offset,
                if lines < u32::MAX {
                    (lines + 1) as u32
                } else {
                    lines
                },
                acc,
            ),
            TriviaPieceKind::Whitespace => spec_collect(
                style,
                text,
                pieces,
                i + 1,
                b,
                owner_offset,
                lines,
                acc,
            ),
            TriviaPieceKind::Skipped => None,
            _ => spec_collect(
                style,
                text,
                pieces,
                i + 1,
                b,
                owner_offset,
                0,
                acc.push(
                    crate::comments::CommentView {
                        text: text.subrange(a, b),
                        position: owner_offset,
                        lines_before: lines,
                        kind: style.spec_comment_kind(text.subrange(a, b)),
                    },
                ),
            ),
        }
    }
}

/// The comments standing before a token: the previous token's trailing
/// trivia (its pieces start where its trimmed text ends) followed by the
/// token's own leading trivia, with the line breaks since the last comment
/// left over. Fails when a skipped piece stands anywhere among them.
pub open spec fn spec_collect_comments<S: CommentStyle>(
    style: S,
    prev: Option<SyntaxToken>,
    token: SyntaxToken,
) -> Option<(Seq<crate::comments::CommentView>, u32)> {
    let after_prev = match prev {
        Some(p) => spec_collect(
            style,
            p.text@,
            p.trailing@,
            0,
            p.text@.len() - crate::syntax::trivia_len(p.trailing@),
            p.offset,
            0,
            Seq::empty(),
        ),
        None => Some((Seq::empty(), 0u32)),
    };
    match after_prev {
        Some((acc, lines)) => spec_collect(style, token.text@, token.leading@, 0, 0, token.offset, lines, acc),
        None => None,
    }
}

/// The kind of the previous token, if one stands.
pub open spec fn spec_prev_kind(prev: Option<SyntaxToken>) -> Option<SyntaxKind> {
    match prev {
        Some(p) => Some(p.kind),
        None => None,
    }
}

} // verus!

verus! {

/// True when some trivia piece is skipped (unparsed) source text.
pub open spec fn has_skipped_pieces(ps: Seq<TriviaPiece>) -> bool {
    exists|k: int| 0 <= k < ps.len() && (#[trigger] ps[k]).kind == TriviaPieceKind::Skipped
}

/// A token free of skipped trivia on both sides.
pub open spec fn token_clean(t: SyntaxToken) -> bool {
    !has_skipped_pieces(t.leading@) && !has_skipped_pieces(t.trailing@)
}

/// Every token of the sequence is free of skipped trivia.
pub open spec fn tokens_clean(ts: Seq<SyntaxToken>) -> bool {
    forall|i: int| 0 <= i < ts.len() ==> token_clean(#[trigger] ts[i])
}

/// The previous token, if any, carries no skipped trailing trivia.
pub open spec fn prev_clean(prev: Option<SyntaxToken>) -> bool {
    match prev {
        Some(t) => !has_skipped_pieces(t.trailing@),
        None => true,
    }
}

/// Collection never fails over trivia without skipped pieces.
pub proof fn lemma_collect_clean<S: CommentStyle>(
    style: S,
    text: Seq<char>,
    pieces: Seq<TriviaPiece>,
    i: int,
    cur: int,
    owner_offset: u32,
    lines: u32,
    acc: Seq<crate::comments::CommentView>,
)
    requires
        !has_skipped_pieces(pieces),
    ensures
        spec_collect(style, text, pieces, i, cur, owner_offset, lines, acc) is Some,
    decreases pieces.len() - i,
{
    if 0 <= i < pieces.len() {
        assert(pieces[i].kind != TriviaPieceKind::Skipped);
        let b = if cur <= text.len() && pieces[i].length <= text.len() - cur {
            cur + pieces[i].length
        } else {
            text.len() as int
        };
        let a = if cur <= b {
            cur
        } else {
            b
        };
        match pieces[i].kind {
            TriviaPieceKind::Newline => lemma_collect_clean(
                style,
                text,
                pieces,
                i + 1,
                b,
                owner_offset,
                if lines < u32::MAX {
                    (lines + 1) as u32
                } else {
                    lines
                },
                acc,
            ),
            TriviaPieceKind::Whitespace => lemma_collect_clean(
                style,
                text,
                pieces,
                i + 1,
                b,
                owner_offset,
                lines,
                acc,
            ),
            TriviaPieceKind::Skipped => {},
            _ => lemma_collect_clean(
                style,
                text,
                pieces,
                i + 1,
                b,
                owner_offset,
                0,
                acc.push(
                    crate::comments::CommentView {
                        text: text.subrange(a, b),
                        position: owner_offset,
                        lines_before: lines,
                        kind: style.spec_comment_kind(text.subrange(a, b)),
                    },
                ),
            ),
        }
    }
}

/// The comments before a token collect successfully when the previous
/// token's trailing trivia and the token's leading trivia are free of
/// skipped pieces.
pub proof fn lemma_collect_comments_clean<S: CommentStyle>(
    style: S,
    prev: Option<SyntaxToken>,
    token: SyntaxToken,
)
    requires
        prev_clean(prev),
        !has_skipped_pieces(token.leading@),
    ensures
        spec_collect_comments(style, prev, token) is Some,
{
    match prev {
        Some(p) => {
            lemma_collect_clean(
                style,
                p.text@,
                p.trailing@,
                0,
                p.text@.len() - crate::syntax::trivia_len(p.trailing@),
                p.offset,
                0,
                Seq::empty(),
            );
            let after = spec_collect(
                style,
                p.text@,
                p.trailing@,
                0,
                p.text@.len() - crate::syntax::trivia_len(p.trailing@),
                p.offset,
                0,
                Seq::empty(),
            );
            lemma_collect_clean(
                style,
                token.text@,
                token.leading@,
                0,
                0,
                token.offset,
                (after->0).1,
                (after->0).0,
            );
        },
        None => {
            lemma_collect_clean(style, token.text@, token.leading@, 0, 0, token.offset, 0, Seq::empty());
        },
    }
}

} // verus!
