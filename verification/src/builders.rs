//! Constructors for the format IR: tokens, lines, groups, indents,
//! conditional content, fills and joins.

use vstd::prelude::*;

use crate::format_element::{
    clone_element, empty_element, lemma_view_list_len_all, lemma_wf_list_parts,
    lemma_wf_list_push, lemma_wf_pair, lemma_wf_singleton, view_list, wf_element, wf_list,
    ElementView, FormatElement, GroupId, LabelId, LineMode, PrintMode, token_text_ok,
};

verus! {

broadcast use vstd::std_specs::vec::axiom_vec_decreases_to_view, vstd::seq::axiom_seq_index_decreases;

/// True for the element that prints nothing.
pub open spec fn is_empty_view(v: ElementView) -> bool {
    v matches ElementView::List { content } && content.len() == 0
}

/// A line break that is omitted when the enclosing group fits on one line.
pub fn soft_line_break() -> (r: FormatElement)
    ensures
        r@ == (ElementView::Line { line_mode: LineMode::Soft }),
        wf_element(r@),
{
    FormatElement::Line { line_mode: LineMode::Soft }
}

/// A line break that is always printed and forces the enclosing group to
/// expand.
pub fn hard_line_break() -> (r: FormatElement)
    ensures
        r@ == (ElementView::Line { line_mode: LineMode::Hard }),
        wf_element(r@),
{
    FormatElement::Line { line_mode: LineMode::Hard }
}

/// A forced empty line: the previous and next content are separated by one
/// blank line.
pub fn empty_line() -> (r: FormatElement)
    ensures
        r@ == (ElementView::Line { line_mode: LineMode::Empty }),
        wf_element(r@),
{
    FormatElement::Line { line_mode: LineMode::Empty }
}

/// A space when the enclosing group fits on one line, a line break otherwise.
pub fn soft_line_break_or_space() -> (r: FormatElement)
    ensures
        r@ == (ElementView::Line { line_mode: LineMode::SoftOrSpace }),
        wf_element(r@),
{
    FormatElement::Line { line_mode: LineMode::SoftOrSpace }
}

/// A token of static text, written to the output as it is. Token text holds
/// no line break: in this IR, line separation belongs to line elements
/// alone, and text with line breaks enters split into one token per line
/// (as the comment engine does for multi-line comments).
pub fn token(text: &'static str) -> (r: FormatElement)
    requires
        token_text_ok(text@),
    ensures
        r@ == (ElementView::Token { text: text@, source_position: None }),
        wf_element(r@),
{
    FormatElement::Token { text: text.to_owned(), source_position: None }
}

/// A token from text computed at run time, remembering the source offset the
/// text came from.
pub fn dynamic_token(text: &str, position: u32) -> (r: FormatElement)
    requires
        token_text_ok(text@),
    ensures
        r@ == (ElementView::Token { text: text@, source_position: Some(position) }),
        wf_element(r@),
{
    FormatElement::Token { text: text.to_owned(), source_position: Some(position) }
}

/// A single space between two pieces of content.
pub fn space_token() -> (r: FormatElement)
    ensures
        r@ == ElementView::Space,
        wf_element(r@),
{
    FormatElement::Space
}

/// Forces the enclosing group to be printed expanded.
pub fn expand_parent() -> (r: FormatElement)
    ensures
        r@ == ElementView::ExpandParent,
        wf_element(r@),
{
    FormatElement::ExpandParent
}

/// Forces all pending line suffixes to be printed at this point.
pub fn line_suffix_boundary() -> (r: FormatElement)
    ensures
        r@ == ElementView::LineSuffixBoundary,
        wf_element(r@),
{
    FormatElement::LineSuffixBoundary
}

/// Defers the content to the end of the current line.
pub fn line_suffix(content: FormatElement) -> (r: FormatElement)
    ensures
        r@ == (ElementView::LineSuffix { content: seq![content@] }),
        wf_element(content@) ==> wf_element(r@),
{
    let ghost cv = content@;
    let mut v: Vec<FormatElement> = Vec::new();
    v.push(content);
    let r = FormatElement::LineSuffix { content: v };
    proof {
        lemma_view_list_len_all();
        assert(view_list(v@) =~= seq![cv]);
        if wf_element(cv) {
            lemma_wf_singleton(cv);
        }
    }
    r
}

/// Marks the content as a formatted comment; prints as the content.
pub fn comment(content: FormatElement) -> (r: FormatElement)
    ensures
        r@ == (ElementView::Comment { content: seq![content@] }),
        wf_element(content@) ==> wf_element(r@),
{
    let ghost cv = content@;
    let mut v: Vec<FormatElement> = Vec::new();
    v.push(content);
    let r = FormatElement::Comment { content: v };
    proof {
        lemma_view_list_len_all();
        assert(view_list(v@) =~= seq![cv]);
        if wf_element(cv) {
            lemma_wf_singleton(cv);
        }
    }
    r
}

/// Attaches a label that buffers may inspect; prints as the content.
pub fn labelled(label_id: LabelId, content: FormatElement) -> (r: FormatElement)
    ensures
        r@ == (ElementView::Label { label: label_id, content: seq![content@] }),
        wf_element(content@) ==> wf_element(r@),
{
    let ghost cv = content@;
    let mut v: Vec<FormatElement> = Vec::new();
    v.push(content);
    let r = FormatElement::Label { label: label_id, content: v };
    proof {
        lemma_view_list_len_all();
        assert(view_list(v@) =~= seq![cv]);
        if wf_element(cv) {
            lemma_wf_singleton(cv);
        }
    }
    r
}

/// Prints the content with the indentation level increased by one. An empty
/// content stays empty.
pub fn indent(content: FormatElement) -> (r: FormatElement)
    ensures
        is_empty_view(content@) ==> r@ == content@,
        !is_empty_view(content@) ==> r@ == (ElementView::Indent { content: seq![content@] }),
        wf_element(content@) ==> wf_element(r@),
{
    if content.is_empty() {
        content
    } else {
        let ghost cv = content@;
        let mut v: Vec<FormatElement> = Vec::new();
        v.push(content);
        let r = FormatElement::Indent { content: v };
        proof {
            lemma_view_list_len_all();
            assert(view_list(v@) =~= seq![cv]);
            if wf_element(cv) {
            lemma_wf_singleton(cv);
        }
        }
        r
    }
}

/// The three shapes of indented blocks.
#[derive(Clone, Copy)]
enum IndentMode {
    Soft,
    Block,
    SoftLineOrSpace,
}

/// The line element opening an indented block of the given shape.
pub open spec fn block_indent_open_line(soft: bool, or_space: bool) -> ElementView {
    if or_space {
        ElementView::Line { line_mode: LineMode::SoftOrSpace }
    } else if soft {
        ElementView::Line { line_mode: LineMode::Soft }
    } else {
        ElementView::Line { line_mode: LineMode::Hard }
    }
}

fn block_indent_impl(content: FormatElement, mode: IndentMode) -> (r: FormatElement)
    ensures
        is_empty_view(content@) ==> r@ == content@,
        !is_empty_view(content@) ==> r@ == ({
            let soft = !(mode matches IndentMode::Block);
            let or_space = mode matches IndentMode::SoftLineOrSpace;
            let inner = ElementView::Indent {
                content: seq![block_indent_open_line(soft, or_space), content@],
            };
            if or_space {
                ElementView::List { content: seq![inner] }
            } else {
                ElementView::List {
                    content: seq![inner, block_indent_open_line(soft, or_space)],
                }
            }
        }),
        wf_element(content@) ==> wf_element(r@),
{
    if content.is_empty() {
        return content;
    }
    let ghost cv = content@;
    let line = match mode {
        IndentMode::Soft => soft_line_break(),
        IndentMode::Block => hard_line_break(),
        IndentMode::SoftLineOrSpace => soft_line_break_or_space(),
    };
    let close = match mode {
        IndentMode::Soft => Some(soft_line_break()),
        IndentMode::Block => Some(hard_line_break()),
        IndentMode::SoftLineOrSpace => None,
    };
    let ghost lv = line@;
    let mut inner: Vec<FormatElement> = Vec::new();
    inner.push(line);
    inner.push(content);
    let ind = FormatElement::Indent { content: inner };
    let mut outer: Vec<FormatElement> = Vec::new();
    let ghost iv = ind@;
    outer.push(ind);
    match close {
        Some(c) => {
            proof {
                lemma_view_list_len_all();
            }
            outer.push(c);
        },
        None => {},
    }
    let r = FormatElement::List { content: outer };
    proof {
        lemma_view_list_len_all();
        assert(view_list(inner@) =~= seq![lv, cv]);
        if wf_element(cv) {
            lemma_wf_pair(lv, cv);
        }
        if (mode matches IndentMode::SoftLineOrSpace) {
            assert(view_list(outer@) =~= seq![iv]);
            if wf_element(cv) {
                lemma_wf_singleton(iv);
            }
        } else {
            assert(view_list(outer@) =~= seq![iv, block_indent_open_line(
                !(mode matches IndentMode::Block),
                false,
            )]);
            if wf_element(cv) {
                lemma_wf_pair(iv, block_indent_open_line(!(mode matches IndentMode::Block), false));
            }
        }
    }
    r
}

/// A hard line break, the content indented by one level, and a hard line
/// break after it. An empty content stays empty.
pub fn block_indent(content: FormatElement) -> (r: FormatElement)
    ensures
        is_empty_view(content@) ==> r@ == content@,
        !is_empty_view(content@) ==> r@ == (ElementView::List {
            content: seq![
                ElementView::Indent {
                    content: seq![
                        ElementView::Line { line_mode: LineMode::Hard },
                        content@,
                    ],
                },
                ElementView::Line { line_mode: LineMode::Hard },
            ],
        }),
        wf_element(content@) ==> wf_element(r@),
{
    block_indent_impl(content, IndentMode::Block)
}

/// A soft line break, the content indented by one level, and a soft line
/// break after it: collapses to nothing when the group is flat. An empty
/// content stays empty.
pub fn soft_block_indent(content: FormatElement) -> (r: FormatElement)
    ensures
        is_empty_view(content@) ==> r@ == content@,
        !is_empty_view(content@) ==> r@ == (ElementView::List {
            content: seq![
                ElementView::Indent {
                    content: seq![
                        ElementView::Line { line_mode: LineMode::Soft },
                        content@,
                    ],
                },
                ElementView::Line { line_mode: LineMode::Soft },
            ],
        }),
        wf_element(content@) ==> wf_element(r@),
{
    block_indent_impl(content, IndentMode::Soft)
}

/// A space when the group is flat; otherwise a line break with the content
/// indented, and no break after it. An empty content stays empty.
pub fn soft_line_indent_or_space(content: FormatElement) -> (r: FormatElement)
    ensures
        is_empty_view(content@) ==> r@ == content@,
        !is_empty_view(content@) ==> r@ == (ElementView::List {
            content: seq![
                ElementView::Indent {
                    content: seq![
                        ElementView::Line { line_mode: LineMode::SoftOrSpace },
                        content@,
                    ],
                },
            ],
        }),
        wf_element(content@) ==> wf_element(r@),
{
    block_indent_impl(content, IndentMode::SoftLineOrSpace)
}

} // verus!

verus! {

/// A list of elements as one element.
pub fn concat_elements(elements: Vec<FormatElement>) -> (r: FormatElement)
    ensures
        r@ == (ElementView::List { content: view_list(elements@) }),
        wf_list(view_list(elements@)) ==> wf_element(r@),
{
    FormatElement::List { content: elements }
}

/// True for an element the group builder hoists out of the group: a comment
/// marker, possibly behind an interned handle. An interned handle wrapping a
/// list is treated as opaque content and not split: splitting it would
/// duplicate the shared segment.
pub open spec fn hoistable_comment(v: ElementView) -> bool {
    ||| v matches ElementView::Comment { .. }
    ||| (v matches ElementView::Interned { element } && *element matches ElementView::Comment {
        ..
    })
}

/// The number of leading hoistable comments of the list.
pub open spec fn hoist_split(l: Seq<ElementView>) -> int
    decreases l,
{
    if l.len() == 0 || !hoistable_comment(l.first()) {
        0
    } else {
        1 + hoist_split(l.drop_first())
    }
}

/// The split point lies within the list, and everything before it is a
/// hoistable comment while the element at it (if any) is not.
pub proof fn lemma_hoist_split(l: Seq<ElementView>)
    ensures
        0 <= hoist_split(l) <= l.len(),
        forall|i: int| 0 <= i < hoist_split(l) ==> hoistable_comment(#[trigger] l[i]),
        hoist_split(l) < l.len() ==> !hoistable_comment(l[hoist_split(l)]),
    decreases l,
{
    if l.len() > 0 && hoistable_comment(l.first()) {
        lemma_hoist_split(l.drop_first());
        assert forall|i: int| 0 <= i < hoist_split(l) implies hoistable_comment(
            #[trigger] l[i],
        ) by {
            if i > 0 {
                assert(l.drop_first()[i - 1] == l[i]);
            }
        }
    }
}

fn is_hoistable_comment(e: &FormatElement) -> (r: bool)
    ensures
        r == hoistable_comment(e@),
{
    match e {
        FormatElement::Comment { .. } => {
            proof {
                assert(e@ matches ElementView::Comment { .. });
            }
            true
        },
        FormatElement::Interned { element } => {
            proof {
                assert(e@ matches ElementView::Interned { element: bv } && *bv == (**element)@);
            }
            let r = matches!(&**element, FormatElement::Comment { .. });
            proof {
                if r {
                    assert((**element)@ matches ElementView::Comment { .. });
                }
            }
            r
        },
        _ => false,
    }
}

/// A group under construction: a fit-decision scope around its content.
pub struct GroupElements {
    pub content: FormatElement,
    pub group_id: Option<GroupId>,
}

/// Builds a group around the content.
pub fn group_elements(content: FormatElement) -> (r: GroupElements)
    ensures
        r.content == content,
        r.group_id is None,
{
    GroupElements { content, group_id: None }
}

impl GroupElements {
    /// Gives the group an identifier that conditional content can refer to.
    pub fn with_group_id(self, group_id: Option<GroupId>) -> (r: GroupElements)
        ensures
            r.content == self.content,
            r.group_id == group_id,
    {
        GroupElements { group_id, ..self }
    }

    /// The content of the group as it stands.
    pub open spec fn content_items(self) -> Seq<ElementView> {
        match self.content@ {
            ElementView::List { content } => content,
            _ => seq![self.content@],
        }
    }

    /// The finished element: leading comment markers are hoisted out in front
    /// of the group, so that a line comment attached before the group's first
    /// token does not expand the whole group; the rest becomes the group's
    /// content.
    #[verifier::loop_isolation(false)]
    pub fn finish(self) -> (r: FormatElement)
        ensures
            ({
                let items = self.content_items();
                let k = hoist_split(items);
                r@ == (ElementView::List {
                    content: items.take(k).push(
                        ElementView::Group { id: self.group_id, content: items.skip(k) },
                    ),
                })
            }),
            wf_element(self.content@) ==> wf_element(r@),
    {
        let GroupElements { content, group_id } = self;
        let ghost items_v = match content@ {
            ElementView::List { content } => content,
            _ => seq![content@],
        };
        let mut items: Vec<FormatElement> = match content {
            FormatElement::List { content } => content,
            other => {
                let mut v: Vec<FormatElement> = Vec::new();
                v.push(other);
                v
            },
        };
        let ghost wf_in = wf_element(
            match items_v.len() {
                _ => self.content@,
            },
        );
        proof {
            lemma_view_list_len_all();
            assert(view_list(items@) =~= items_v);
            if wf_element(self.content@) {
                if self.content@ matches ElementView::List { .. } {
                    assert(wf_list(items_v));
                } else {
                    lemma_wf_singleton(self.content@);
                    assert(wf_list(items_v));
                }
            }
        }
        let mut lead: Vec<FormatElement> = Vec::new();
        let ghost k = hoist_split(items_v);
        proof {
            lemma_hoist_split(items_v);
        }
        loop
            invariant
                lead.len() + items.len() == items_v.len(),
                view_list(lead@) =~= items_v.take(lead.len() as int),
                view_list(items@) =~= items_v.skip(lead.len() as int),
                lead.len() <= k,
            decreases items.len(),
        {
            if items.len() == 0 {
                break;
            }
            proof {
                lemma_view_list_len_all();
                assert(view_list(items@)[0] == items@[0]@);
                assert(items_v.skip(lead.len() as int).first() == items_v[lead.len() as int]);
            }
            if !is_hoistable_comment(&items[0]) {
                break;
            }
            let ghost n0 = lead.len() as int;
            let ghost pre_items = items@;
            proof {
                lemma_view_list_len_all();
                assert(view_list(pre_items)[0] == pre_items[0]@);
                assert(items_v.skip(n0).first() == items_v[n0]);
                assert(hoistable_comment(items_v[n0]));
            }
            let e = items.remove(0);
            lead.push(e);
            proof {
                lemma_view_list_len_all();
                assert(items@ =~= pre_items.drop_first());
                assert(view_list(lead@) =~= items_v.take(n0 + 1));
                assert(items_v.skip(n0).drop_first() =~= items_v.skip(n0 + 1));
                assert(view_list(items@) =~= items_v.skip(n0 + 1));
                lemma_hoist_split_step(items_v, n0);
            }
        }
        proof {
            lemma_view_list_len_all();
            if lead.len() < items_v.len() {
                assert(items_v.skip(lead.len() as int).first() == items_v[lead.len() as int]);
                assert(view_list(items@)[0] == items@[0]@);
            }
            lemma_hoist_split_at(items_v, lead.len() as int);
        }
        let group = FormatElement::Group { id: group_id, content: items };
        let ghost gv = group@;
        lead.push(group);
        let r = FormatElement::List { content: lead };
        proof {
            lemma_view_list_len_all();
            assert(view_list(lead@) =~= items_v.take(k).push(gv));
            if wf_element(self.content@) {
                assert(wf_list(items_v));
                lemma_wf_take_skip(items_v, k);
                lemma_wf_list_push(items_v.take(k), gv);
            }
        }
        r
    }
}

/// Counting hoistable comments: if the first `i` elements are hoistable and
/// so is the `i`-th, the split point lies beyond `i`.
proof fn lemma_hoist_split_step(l: Seq<ElementView>, i: int)
    requires
        0 <= i < l.len(),
        forall|j: int| 0 <= j <= i ==> hoistable_comment(#[trigger] l[j]),
    ensures
        hoist_split(l) > i,
    decreases i,
{
    assert(l.first() == l[0]);
    lemma_hoist_split(l.drop_first());
    if i > 0 {
        assert forall|j: int| 0 <= j <= i - 1 implies hoistable_comment(
            #[trigger] l.drop_first()[j],
        ) by {
            assert(l.drop_first()[j] == l[j + 1]);
        }
        lemma_hoist_split_step(l.drop_first(), i - 1);
    }
}

/// If the first `i` elements are hoistable and the `i`-th is not (or the list
/// ends there), the split point is exactly `i`.
proof fn lemma_hoist_split_at(l: Seq<ElementView>, i: int)
    requires
        0 <= i <= l.len(),
        forall|j: int| 0 <= j < i ==> hoistable_comment(#[trigger] l[j]),
        i < l.len() ==> !hoistable_comment(l[i]),
    ensures
        hoist_split(l) == i,
    decreases i,
{
    if i == 0 {
        if l.len() > 0 {
            assert(l.first() == l[0]);
        }
    } else {
        assert(l.first() == l[0]);
        assert forall|j: int| 0 <= j < i - 1 implies hoistable_comment(
            #[trigger] l.drop_first()[j],
        ) by {
            assert(l.drop_first()[j] == l[j + 1]);
        }
        assert(i - 1 < l.drop_first().len() ==> !hoistable_comment(l.drop_first()[i - 1]));
        lemma_hoist_split_at(l.drop_first(), i - 1);
    }
}

/// The two halves of a well-formed list are well formed.
proof fn lemma_wf_take_skip(l: Seq<ElementView>, k: int)
    requires
        wf_list(l),
        0 <= k <= l.len(),
    ensures
        wf_list(l.take(k)),
        wf_list(l.skip(k)),
{
    crate::format_element::lemma_wf_list_parts(l);
    assert(l.take(k) =~= l.subrange(0, k));
    assert(l.skip(k) =~= l.subrange(k, l.len() as int));
}

} // verus!

verus! {

/// Conditional content under construction: printed only when the referenced
/// group (or the enclosing one) is in the chosen mode.
pub struct IfGroupBreaks {
    pub content: FormatElement,
    pub group_id: Option<GroupId>,
    pub mode: PrintMode,
}

/// Content printed only when the group expands: for example a trailing comma
/// that appears only in the multi-line layout.
pub fn if_group_breaks(content: FormatElement) -> (r: IfGroupBreaks)
    ensures
        r.content == content,
        r.group_id is None,
        r.mode == PrintMode::Expanded,
{
    IfGroupBreaks { content, group_id: None, mode: PrintMode::Expanded }
}

/// Content printed only when the group fits on one line.
pub fn if_group_fits_on_line(content: FormatElement) -> (r: IfGroupBreaks)
    ensures
        r.content == content,
        r.group_id is None,
        r.mode == PrintMode::Flat,
{
    IfGroupBreaks { content, group_id: None, mode: PrintMode::Flat }
}

impl IfGroupBreaks {
    /// Refers the condition to the group with the given id instead of the
    /// enclosing one.
    pub fn with_group_id(self, group_id: Option<GroupId>) -> (r: IfGroupBreaks)
        ensures
            r.content == self.content,
            r.group_id == group_id,
            r.mode == self.mode,
    {
        IfGroupBreaks { group_id, ..self }
    }

    /// The finished conditional element. An empty content stays empty.
    pub fn finish(self) -> (r: FormatElement)
        ensures
            is_empty_view(self.content@) ==> r@ == self.content@,
            !is_empty_view(self.content@) ==> r@ == (ElementView::ConditionalGroupContent {
                mode: self.mode,
                group_id: self.group_id,
                content: seq![self.content@],
            }),
            wf_element(self.content@) ==> wf_element(r@),
    {
        let IfGroupBreaks { content, group_id, mode } = self;
        if content.is_empty() {
            return content;
        }
        let ghost cv = content@;
        let mut v: Vec<FormatElement> = Vec::new();
        v.push(content);
        let r = FormatElement::ConditionalGroupContent { mode, group_id, content: v };
        proof {
            lemma_view_list_len_all();
            assert(view_list(v@) =~= seq![cv]);
            if wf_element(cv) {
                lemma_wf_singleton(cv);
            }
        }
        r
    }
}

/// The elements written by a join: the entries separated by the separator.
pub open spec fn join_seq(sep: Option<ElementView>, items: Seq<ElementView>) -> Seq<ElementView>
    decreases items,
{
    if items.len() == 0 {
        Seq::empty()
    } else if items.len() == 1 {
        seq![items[0]]
    } else {
        join_seq(sep, items.drop_last()) + (match sep {
            Some(s) => seq![s, items.last()],
            None => seq![items.last()],
        })
    }
}

/// Joins a sequence of elements, optionally separated.
pub struct JoinBuilder {
    pub separator: Option<FormatElement>,
    pub elements: Vec<FormatElement>,
    pub entry_views: Ghost<Seq<ElementView>>,
}

impl JoinBuilder {
    /// Every element built so far is well formed.
    pub open spec fn wf_elements(self) -> bool {
        wf_list(view_list(self.elements@))
    }

    /// The separator, when one is set, is well formed.
    pub open spec fn sep_wf(self) -> bool {
        match self.separator {
            Some(s) => wf_element(s@),
            None => true,
        }
    }

    /// The built elements are the entries so far with the separator between
    /// every two of them.
    pub open spec fn wf(self) -> bool {
        view_list(self.elements@) == join_seq(
            match self.separator {
                Some(s) => Some(s@),
                None => None,
            },
            self.entry_views@,
        )
    }

    /// A join without separator.
    pub fn new() -> (r: JoinBuilder)
        ensures
            r.wf(),
            r.wf_elements(),
            r.sep_wf(),
            r.entry_views@ =~= Seq::<ElementView>::empty(),
            r.separator is None,
    {
        let r = JoinBuilder {
            separator: None,
            elements: Vec::new(),
            entry_views: Ghost(Seq::empty()),
        };
        proof {
            assert(view_list(r.elements@) =~= Seq::<ElementView>::empty());
        }
        r
    }

    /// A join that writes `separator` between every two entries.
    pub fn with_separator(separator: FormatElement) -> (r: JoinBuilder)
        ensures
            r.wf(),
            r.wf_elements(),
            wf_element(separator@) ==> r.sep_wf(),
            r.entry_views@ =~= Seq::<ElementView>::empty(),
            r.separator matches Some(s) && s@ == separator@,
    {
        let r = JoinBuilder {
            separator: Some(separator),
            elements: Vec::new(),
            entry_views: Ghost(Seq::empty()),
        };
        proof {
            assert(view_list(r.elements@) =~= Seq::<ElementView>::empty());
        }
        r
    }

    /// Adds one entry.
    pub fn entry(&mut self, e: FormatElement)
        requires
            old(self).wf(),
        ensures
            final(self).wf(),
            final(self).entry_views@ == old(self).entry_views@.push(e@),
            final(self).separator == old(self).separator,
            old(self).wf_elements() && old(self).sep_wf() && wf_element(e@)
                ==> final(self).wf_elements(),
    {
        let ghost sepv: Option<ElementView> = match &self.separator {
            Some(s) => Some(s@),
            None => None,
        };
        let ghost pre = self.elements@;
        if self.elements.len() > 0 {
            match &self.separator {
                Some(s) => {
                    let c = clone_element(s);
                    self.elements.push(c);
                },
                None => {},
            }
        }
        let ghost mid_elems = view_list(self.elements@);
        let ghost ev = e@;
        self.elements.push(e);
        self.entry_views = Ghost(old(self).entry_views@.push(ev));
        proof {
            lemma_view_list_len_all();
            if old(self).wf_elements() && old(self).sep_wf() && wf_element(ev) {
                if old(self).elements@.len() > 0 {
                    match sepv {
                        Some(sv) => {
                            assert(mid_elems =~= view_list(old(self).elements@).push(sv));
                            lemma_wf_list_push(view_list(old(self).elements@), sv);
                        },
                        None => {
                            assert(mid_elems =~= view_list(old(self).elements@));
                        },
                    }
                } else {
                    assert(mid_elems =~= view_list(old(self).elements@));
                }
                assert(view_list(self.elements@) =~= mid_elems.push(ev));
                lemma_wf_list_push(mid_elems, ev);
            }
            lemma_join_seq_push(sepv, old(self).entry_views@, e@);
            if old(self).entry_views@.len() == 0 {
                assert(join_seq(sepv, old(self).entry_views@).len() == 0);
                assert(view_list(self.elements@) =~= join_seq(sepv, self.entry_views@));
            } else {
                assert(join_seq(sepv, old(self).entry_views@).len() > 0);
                assert(self.entry_views@.drop_last() =~= old(self).entry_views@);
                assert(view_list(self.elements@) =~= join_seq(sepv, self.entry_views@));
            }
        }
    }

    /// Adds each element of the vector as an entry.
    #[verifier::loop_isolation(false)]
    pub fn entries(&mut self, items: Vec<FormatElement>)
        requires
            old(self).wf(),
        ensures
            final(self).wf(),
            final(self).entry_views@ == old(self).entry_views@ + view_list(items@),
            final(self).separator == old(self).separator,
    {
        let ghost itemsv = items@;
        let mut items = items;
        let mut i: usize = 0;
        let n = items.len();
        proof {
            lemma_view_list_len_all();
            assert(self.entry_views@ =~= old(self).entry_views@ + view_list(itemsv).take(0));
        }
        while i < n
            invariant
                i <= n,
                n == items.len(),
                items@ == itemsv,
                self.wf(),
                self.separator == old(self).separator,
                self.entry_views@ =~= old(self).entry_views@ + view_list(itemsv).take(i as int),
            decreases n - i,
        {
            let e = clone_element(&items[i]);
            self.entry(e);
            proof {
                lemma_view_list_len_all();
                assert(view_list(itemsv).take(i + 1) =~= view_list(itemsv).take(i as int).push(
                    itemsv[i as int]@,
                ));
                assert(self.entry_views@ =~= old(self).entry_views@ + view_list(itemsv).take(
                    i + 1,
                ));
            }
            i = i + 1;
        }
        proof {
            assert(view_list(itemsv).take(n as int) =~= view_list(itemsv));
        }
    }

    /// The joined entries as one element.
    pub fn finish(&mut self) -> (r: FormatElement)
        requires
            old(self).wf(),
        ensures
            r@ == (ElementView::List {
                content: join_seq(
                    match old(self).separator {
                        Some(s) => Some(s@),
                        None => None,
                    },
                    old(self).entry_views@,
                ),
            }),
            old(self).wf_elements() ==> wf_element(r@),
    {
        let mut v: Vec<FormatElement> = Vec::new();
        core::mem::swap(&mut self.elements, &mut v);
        FormatElement::List { content: v }
    }
}

/// Extending a join by one entry appends the separator (when one is set and
/// entries exist) and the entry.
proof fn lemma_join_seq_push(sep: Option<ElementView>, items: Seq<ElementView>, e: ElementView)
    ensures
        join_seq(sep, items.push(e)) == if items.len() == 0 {
            seq![e]
        } else {
            join_seq(sep, items) + (match sep {
                Some(s) => seq![s, e],
                None => seq![e],
            })
        },
{
    let p = items.push(e);
    if items.len() == 0 {
        assert(join_seq(sep, p) =~= seq![e]);
    } else {
        assert(p.drop_last() =~= items);
        assert(p.last() == e);
    }
}

} // verus!

verus! {

/// Joins the formatted content of nodes, keeping nodes that were separated
/// by a blank line in the source separated by a blank line in the output.
pub struct JoinNodesBuilder {
    pub separator: FormatElement,
    pub elements: Vec<FormatElement>,
    pub has_elements: bool,
}

impl JoinNodesBuilder {
    /// Every element built so far is well formed.
    pub open spec fn wf_elements(self) -> bool {
        wf_list(view_list(self.elements@))
    }

    /// The separator is well formed.
    pub open spec fn sep_wf(self) -> bool {
        wf_element(self.separator@)
    }

    /// A join that separates consecutive nodes with `separator`, or with an
    /// empty line where the source held one or more blank lines.
    pub fn new(separator: FormatElement) -> (r: JoinNodesBuilder)
        ensures
            r.separator == separator,
            view_list(r.elements@) =~= Seq::<ElementView>::empty(),
            !r.has_elements,
            r.wf_elements(),
            wf_element(separator@) ==> r.sep_wf(),
    {
        let r = JoinNodesBuilder { separator, elements: Vec::new(), has_elements: false };
        proof {
            lemma_view_list_len_all();
        }
        r
    }

    /// Adds the formatted content of one node. `lines_before` is the number
    /// of line breaks that stood before the node in the source: more than one
    /// keeps an empty line. Empty content is skipped entirely. Leading
    /// comment markers of the content move in front of the separator: a
    /// trailing comment of the previous node stays on the previous line.
    #[verifier::loop_isolation(false)]
    #[verifier::rlimit(100)]
    pub fn entry(&mut self, lines_before: u32, content: FormatElement)
        ensures
            is_empty_view(content@) ==> final(self).elements@ == old(self).elements@
                && final(self).has_elements == old(self).has_elements,
            !is_empty_view(content@) ==> ({
                let items = match content@ {
                    ElementView::List { content: c } => c,
                    _ => seq![content@],
                };
                let k = hoist_split(items);
                view_list(final(self).elements@) =~= view_list(old(self).elements@) + items.take(
                    k,
                ) + (if old(self).has_elements {
                    if lines_before > 1 {
                        seq![ElementView::Line { line_mode: LineMode::Empty }]
                    } else {
                        seq![old(self).separator@]
                    }
                } else {
                    Seq::<ElementView>::empty()
                }) + seq![ElementView::List { content: items.skip(k) }]
            }),
            !is_empty_view(content@) ==> final(self).has_elements,
            final(self).separator@ == old(self).separator@,
            final(self).separator == old(self).separator,
            old(self).wf_elements() && old(self).sep_wf() && wf_element(content@)
                ==> final(self).wf_elements() && final(self).sep_wf(),
    {
        if content.is_empty() {
            return;
        }
        let ghost wf_all = old(self).wf_elements() && old(self).sep_wf() && wf_element(content@);
        let ghost items_v = match content@ {
            ElementView::List { content: c } => c,
            _ => seq![content@],
        };
        let mut items: Vec<FormatElement> = match content {
            FormatElement::List { content: c } => c,
            other => {
                let mut v: Vec<FormatElement> = Vec::new();
                v.push(other);
                v
            },
        };
        proof {
            lemma_view_list_len_all();
            assert(view_list(items@) =~= items_v);
            lemma_hoist_split(items_v);
            if wf_all {
                if content@ matches ElementView::List { .. } {
                    assert(wf_list(items_v));
                } else {
                    lemma_wf_singleton(content@);
                    assert(wf_list(items_v));
                }
            }
        }
        let ghost k = hoist_split(items_v);
        let total = items.len();
        let mut lead_count: usize = 0;
        loop
            invariant
                lead_count + items.len() == total,
                total == items_v.len(),
                view_list(self.elements@) =~= view_list(old(self).elements@) + items_v.take(
                    lead_count as int,
                ),
                view_list(items@) =~= items_v.skip(lead_count as int),
                lead_count <= k,
                self.has_elements == old(self).has_elements,
                self.separator == old(self).separator,
                wf_all ==> wf_list(view_list(self.elements@)),
                wf_all ==> wf_list(items_v),
            decreases items.len(),
        {
            if items.len() == 0 {
                break;
            }
            proof {
                lemma_view_list_len_all();
                assert(view_list(items@)[0] == items@[0]@);
                assert(items_v.skip(lead_count as int).first() == items_v[lead_count as int]);
            }
            if !is_hoistable_comment(&items[0]) {
                break;
            }
            let ghost n0 = lead_count as int;
            let ghost pre_items = items@;
            proof {
                assert(hoistable_comment(items_v[n0]));
            }
            let e = items.remove(0);
            let ghost pre_elems = self.elements@;
            let ghost ev = e@;
            self.elements.push(e);
            proof {
                lemma_view_list_len_all();
                assert(items@ =~= pre_items.drop_first());
                assert(pre_items[0]@ == items_v[n0]);
                assert(ev == items_v[n0]);
                assert(view_list(self.elements@) =~= view_list(pre_elems).push(ev));
                assert(items_v.take(n0 + 1) =~= items_v.take(n0).push(items_v[n0]));
                assert(view_list(self.elements@) =~= view_list(old(self).elements@) + items_v.take(
                    n0 + 1,
                ));
                assert(items_v.skip(n0).drop_first() =~= items_v.skip(n0 + 1));
                assert(view_list(items@) =~= items_v.skip(n0 + 1));
                lemma_hoist_split_step(items_v, n0);
                if wf_all {
                    lemma_wf_list_parts(items_v);
                    lemma_wf_list_push(view_list(pre_elems), ev);
                }
            }
            lead_count = lead_count + 1;
        }
        proof {
            lemma_view_list_len_all();
            if lead_count < items_v.len() {
                assert(items_v.skip(lead_count as int).first() == items_v[lead_count as int]);
                assert(view_list(items@)[0] == items@[0]@);
            }
            lemma_hoist_split_at(items_v, lead_count as int);
        }
        if self.has_elements {
            if lines_before > 1 {
                let ghost pre2 = view_list(self.elements@);
                self.elements.push(empty_line());
                proof {
                    lemma_view_list_len_all();
                    assert(view_list(self.elements@) =~= pre2.push(
                        ElementView::Line { line_mode: LineMode::Empty },
                    ));
                    if wf_all {
                        lemma_wf_list_push(pre2, ElementView::Line { line_mode: LineMode::Empty });
                    }
                }
            } else {
                let ghost pre2 = view_list(self.elements@);
                let ghost sepv = self.separator@;
                let c = clone_element(&self.separator);
                self.elements.push(c);
                proof {
                    lemma_view_list_len_all();
                    assert(view_list(self.elements@) =~= pre2.push(sepv));
                    if wf_all {
                        lemma_wf_list_push(pre2, sepv);
                    }
                }
            }
        }
        let ghost pre3 = view_list(self.elements@);
        let ghost restv = view_list(items@);
        let rest = FormatElement::List { content: items };
        self.elements.push(rest);
        self.has_elements = true;
        proof {
            lemma_view_list_len_all();
            assert(view_list(self.elements@) =~= pre3.push(ElementView::List { content: restv }));
            if wf_all {
                lemma_wf_take_skip(items_v, lead_count as int);
                assert(wf_list(restv));
                lemma_wf_list_push(pre3, ElementView::List { content: restv });
            }
        }
    }

    /// The joined entries as one element.
    pub fn finish(&mut self) -> (r: FormatElement)
        ensures
            r@ == (ElementView::List { content: view_list(old(self).elements@) }),
            old(self).wf_elements() ==> wf_element(r@),
    {
        let mut v: Vec<FormatElement> = Vec::new();
        core::mem::swap(&mut self.elements, &mut v);
        FormatElement::List { content: v }
    }
}

/// The non-empty elements of the sequence, in order.
pub open spec fn drop_empty(l: Seq<ElementView>) -> Seq<ElementView>
    decreases l,
{
    if l.len() == 0 {
        Seq::empty()
    } else if is_empty_view(l.last()) {
        drop_empty(l.drop_last())
    } else {
        drop_empty(l.drop_last()).push(l.last())
    }
}

/// Fills items onto as few lines as possible, separating them with the
/// separator and breaking where an item no longer fits.
pub struct FillBuilder {
    pub separator: FormatElement,
    pub items: Vec<FormatElement>,
}

impl FillBuilder {
    /// A fill with the given separator.
    pub fn new(separator: FormatElement) -> (r: FillBuilder)
        ensures
            r.separator == separator,
            view_list(r.items@) =~= Seq::<ElementView>::empty(),
    {
        let r = FillBuilder { separator, items: Vec::new() };
        proof {
            lemma_view_list_len_all();
        }
        r
    }

    /// Adds one item; empty content is skipped.
    pub fn entry(&mut self, content: FormatElement)
        ensures
            final(self).separator == old(self).separator,
            is_empty_view(content@) ==> final(self).items@ == old(self).items@,
            !is_empty_view(content@) ==> view_list(final(self).items@) =~= view_list(
                old(self).items@,
            ).push(content@),
    {
        if content.is_empty() {
            return;
        }
        self.items.push(content);
        proof {
            lemma_view_list_len_all();
        }
    }

    /// Adds each element of the vector as an item.
    #[verifier::loop_isolation(false)]
    pub fn entries(&mut self, items: Vec<FormatElement>)
        ensures
            final(self).separator == old(self).separator,
            view_list(final(self).items@) =~= view_list(old(self).items@) + drop_empty(
                view_list(items@),
            ),
    {
        let ghost itemsv = view_list(items@);
        let mut items = items;
        let n = items.len();
        let mut i: usize = 0;
        proof {
            lemma_view_list_len_all();
            assert(drop_empty(itemsv.take(0)) =~= Seq::<ElementView>::empty());
            assert(view_list(self.items@) =~= view_list(old(self).items@) + drop_empty(
                itemsv.take(0),
            ));
        }
        while i < n
            invariant
                i <= n,
                n == items.len(),
                view_list(items@) == itemsv,
                self.separator == old(self).separator,
                view_list(self.items@) =~= view_list(old(self).items@) + drop_empty(
                    itemsv.take(i as int),
                ),
            decreases n - i,
        {
            let e = clone_element(&items[i]);
            self.entry(e);
            proof {
                lemma_view_list_len_all();
                assert(itemsv.take(i + 1).drop_last() =~= itemsv.take(i as int));
                assert(itemsv.take(i + 1).last() == itemsv[i as int]);
            }
            i = i + 1;
        }
        proof {
            assert(itemsv.take(n as int) =~= itemsv);
        }
    }

    /// Adds an element; a list is flattened into individual items.
    pub fn flatten_entry(&mut self, content: FormatElement)
        ensures
            final(self).separator == old(self).separator,
            content@ matches ElementView::List { content: c } ==> view_list(final(self).items@)
                =~= view_list(old(self).items@) + c,
            !(content@ matches ElementView::List { .. }) ==> view_list(final(self).items@)
                =~= view_list(old(self).items@).push(content@),
    {
        match content {
            FormatElement::List { content: c } => {
                let ghost cv = c@;
                let mut c = c;
                proof {
                    assert(content@ matches ElementView::List { content: lc } && lc == view_list(
                        cv,
                    ));
                }
                let mut i: usize = 0;
                let n = c.len();
                proof {
                    lemma_view_list_len_all();
                    assert(view_list(self.items@) =~= view_list(old(self).items@) + view_list(
                        cv,
                    ).take(0));
                }
                while i < n
                    invariant
                        i <= n,
                        n == c.len(),
                        c@ == cv,
                        self.separator == old(self).separator,
                        view_list(self.items@) =~= view_list(old(self).items@) + view_list(
                            cv,
                        ).take(i as int),
                    decreases n - i,
                {
                    let ghost pre_items = self.items@;
                    let e = clone_element(&c[i]);
                    self.items.push(e);
                    proof {
                        lemma_view_list_len_all();
                        assert(view_list(cv).take(i + 1) =~= view_list(cv).take(i as int).push(
                            cv[i as int]@,
                        ));
                        assert(view_list(self.items@) =~= view_list(pre_items).push(cv[i as int]@));
                        assert(view_list(self.items@) =~= view_list(old(self).items@) + view_list(
                            cv,
                        ).take(i + 1));
                    }
                    i = i + 1;
                }
                proof {
                    assert(view_list(cv).take(n as int) =~= view_list(cv));
                }
            },
            other => {
                self.items.push(other);
                proof {
                    lemma_view_list_len_all();
                }
            },
        }
    }

    /// The finished fill: nothing for no items, the item alone for one item,
    /// and a fill element otherwise.
    pub fn finish(&mut self) -> (r: FormatElement)
        ensures
            old(self).items@.len() == 0 ==> is_empty_view(r@),
            old(self).items@.len() == 1 ==> r@ == view_list(old(self).items@)[0],
            old(self).items@.len() >= 2 ==> (r@ matches ElementView::Fill { separator, items }
                && *separator == old(self).separator@ && items == view_list(old(self).items@)),
    {
        let mut items: Vec<FormatElement> = Vec::new();
        core::mem::swap(&mut self.items, &mut items);
        let mut sep = FormatElement::Space;
        core::mem::swap(&mut self.separator, &mut sep);
        proof {
            lemma_view_list_len_all();
        }
        if items.len() == 0 {
            empty_element()
        } else if items.len() == 1 {
            match items.pop() {
                Some(e) => e,
                None => empty_element(),
            }
        } else {
            FormatElement::Fill { separator: Box::new(sep), items }
        }
    }
}

/// Ordered layout variants, from most flat to most expanded; the printer
/// prints the first that fits and the last unconditionally.
pub struct BestFitting {
    pub variants: Vec<FormatElement>,
}

impl BestFitting {
    /// Variants for the printer to choose between; there are at least two:
    /// the most flat and the most expanded.
    pub fn from_vec(variants: Vec<FormatElement>) -> (r: BestFitting)
        requires
            variants@.len() >= 2,
        ensures
            r.variants == variants,
    {
        BestFitting { variants }
    }

    /// The finished element.
    pub fn finish(self) -> (r: FormatElement)
        ensures
            r@ == (ElementView::BestFitting { variants: view_list(self.variants@) }),
            wf_list(view_list(self.variants@)) && self.variants@.len() >= 2 ==> wf_element(r@),
    {
        proof {
            lemma_view_list_len_all();
        }
        FormatElement::BestFitting { variants: self.variants }
    }
}

} // verus!
