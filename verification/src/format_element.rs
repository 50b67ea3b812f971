//! The format IR: a tree of formatting intent that the printer resolves into text.
//!
//! `FormatElement` is the executable representation; its mathematical model is
//! `ElementView`, where token text is a sequence of characters. All contracts
//! about documents are stated over `ElementView`.

use vstd::prelude::*;

verus! {

broadcast use vstd::std_specs::vec::axiom_vec_decreases_to_view, vstd::seq::axiom_seq_index_decreases;

/// How a line break behaves depending on the mode of the enclosing group.
#[derive(Clone, Copy, PartialEq, Eq, Structural, Debug)]
pub enum LineMode {
    /// Newline when the enclosing group is expanded, nothing when it is flat.
    Soft,
    /// Always a newline; forces the enclosing group to expand.
    Hard,
    /// Always an empty line (two newlines); forces the enclosing group to expand.
    Empty,
    /// Newline when the enclosing group is expanded, a space when it is flat.
    SoftOrSpace,
}

/// The two ways a group can be printed.
#[derive(Clone, Copy, PartialEq, Eq, Structural, Debug)]
pub enum PrintMode {
    /// The group is printed on a single line.
    Flat,
    /// The group is printed over multiple lines.
    Expanded,
}

impl PrintMode {
    pub fn is_flat(&self) -> (r: bool)
        ensures
            r == (*self == PrintMode::Flat),
    {
        matches!(self, PrintMode::Flat)
    }

    pub fn is_expanded(&self) -> (r: bool)
        ensures
            r == (*self == PrintMode::Expanded),
    {
        matches!(self, PrintMode::Expanded)
    }
}

/// Identifier of a group, unique within one document.
#[derive(Clone, Copy, PartialEq, Eq, Structural, Debug)]
pub struct GroupId {
    pub id: u32,
}

/// Identifier of a label, unique within one document.
#[derive(Clone, Copy, PartialEq, Eq, Structural, Debug)]
pub struct LabelId {
    pub id: u32,
}

/// One node of the format IR.
#[derive(Debug)]
#[verifier::ext_equal]
pub enum FormatElement {
    /// Literal output text. `source_position` is the byte offset of the text in the
    /// source document when the token was sliced out of it.
    Token { text: String, source_position: Option<u32> },
    /// A space between two pieces of content; dropped at the start of a line.
    Space,
    /// A line break whose meaning depends on `mode` and the enclosing group.
    Line { line_mode: LineMode },
    /// Prints the content with the indentation level increased by one.
    Indent { content: Vec<FormatElement> },
    /// The unit of the fit decision: printed flat when its flat width fits on
    /// the line, expanded otherwise.
    Group { id: Option<GroupId>, content: Vec<FormatElement> },
    /// Content printed only when the referenced group (or, with no id, the
    /// enclosing group) is printed in `mode`.
    ConditionalGroupContent { mode: PrintMode, group_id: Option<GroupId>, content: Vec<FormatElement> },
    /// Forces the enclosing group to be printed expanded.
    ExpandParent,
    /// Packs the items onto lines, separating them with `separator`, breaking
    /// whenever the next item does not fit.
    Fill { separator: Box<FormatElement>, items: Vec<FormatElement> },
    /// Content held back until just before the next hard line break.
    LineSuffix { content: Vec<FormatElement> },
    /// Forces all pending line suffixes to be printed here.
    LineSuffixBoundary,
    /// Marks its content as formatted comment trivia; prints as the content.
    Comment { content: Vec<FormatElement> },
    /// Attaches a label that buffers may inspect; prints as the content.
    Label { label: LabelId, content: Vec<FormatElement> },
    /// A shared, immutable subdocument; prints as the content.
    Interned { element: Box<FormatElement> },
    /// Ordered variants from most flat to most expanded; the printer picks the
    /// first that fits, the last unconditionally.
    BestFitting { variants: Vec<FormatElement> },
    /// A plain sequence of elements.
    List { content: Vec<FormatElement> },
}

/// The mathematical model of a format IR node: the same tree with token text
/// as a sequence of characters.
#[verifier::ext_equal]
pub enum ElementView {
    Token { text: Seq<char>, source_position: Option<u32> },
    Space,
    Line { line_mode: LineMode },
    Indent { content: Seq<ElementView> },
    Group { id: Option<GroupId>, content: Seq<ElementView> },
    ConditionalGroupContent { mode: PrintMode, group_id: Option<GroupId>, content: Seq<ElementView> },
    ExpandParent,
    Fill { separator: Box<ElementView>, items: Seq<ElementView> },
    LineSuffix { content: Seq<ElementView> },
    LineSuffixBoundary,
    Comment { content: Seq<ElementView> },
    Label { label: LabelId, content: Seq<ElementView> },
    Interned { element: Box<ElementView> },
    BestFitting { variants: Seq<ElementView> },
    List { content: Seq<ElementView> },
}

impl View for FormatElement {
    type V = ElementView;

    open spec fn view(&self) -> ElementView {
        elem_view(*self)
    }
}

/// The model of one IR node.
pub open spec fn elem_view(e: FormatElement) -> ElementView
    decreases e,
{
    {
        match e {
            FormatElement::Token { text, source_position } => ElementView::Token {
                text: text@,
                source_position,
            },
            FormatElement::Space => ElementView::Space,
            FormatElement::Line { line_mode } => ElementView::Line { line_mode },
            FormatElement::ExpandParent => ElementView::ExpandParent,
            FormatElement::LineSuffixBoundary => ElementView::LineSuffixBoundary,
            FormatElement::Indent { content } => ElementView::Indent { content: view_list(content@) },
            FormatElement::Group { id, content } => ElementView::Group {
                id,
                content: view_list(content@),
            },
            FormatElement::ConditionalGroupContent { mode, group_id, content } => {
                ElementView::ConditionalGroupContent {
                    mode,
                    group_id,
                    content: view_list(content@),
                }
            },
            FormatElement::Fill { separator, items } => ElementView::Fill {
                separator: Box::new(elem_view(*separator)),
                items: view_list(items@),
            },
            FormatElement::LineSuffix { content } => ElementView::LineSuffix {
                content: view_list(content@),
            },
            FormatElement::Comment { content } => ElementView::Comment {
                content: view_list(content@),
            },
            FormatElement::Label { label, content } => ElementView::Label {
                label,
                content: view_list(content@),
            },
            FormatElement::Interned { element } => ElementView::Interned {
                element: Box::new(elem_view(*element)),
            },
            FormatElement::BestFitting { variants } => ElementView::BestFitting {
                variants: view_list(variants@),
            },
            FormatElement::List { content } => ElementView::List { content: view_list(content@) },
        }
    }
}

/// The model of a list of IR nodes.
pub open spec fn view_list(l: Seq<FormatElement>) -> Seq<ElementView>
    decreases l,
{
    if l.len() == 0 {
        Seq::empty()
    } else {
        view_list(l.drop_last()).push(elem_view(l.last()))
    }
}

/// The model of a list is the element-wise model.
pub broadcast proof fn lemma_view_list_len(l: Seq<FormatElement>)
    ensures
        (#[trigger] view_list(l)).len() == l.len(),
        forall|i: int| 0 <= i < l.len() ==> view_list(l)[i] == elem_view(l[i]),
    decreases l,
{
    if l.len() > 0 {
        lemma_view_list_len(l.drop_last());
    }
}

/// `lemma_view_list_len` for every list at once.
pub proof fn lemma_view_list_len_all()
    ensures
        forall|l: Seq<FormatElement>| (#[trigger] view_list(l)).len() == l.len(),
        forall|l: Seq<FormatElement>, i: int|
            0 <= i < l.len() ==> #[trigger] view_list(l)[i] == elem_view(l[i]),
{
    assert forall|l: Seq<FormatElement>| (#[trigger] view_list(l)).len() == l.len() by {
        lemma_view_list_len(l);
    }
    assert forall|l: Seq<FormatElement>, i: int|
        0 <= i < l.len() implies #[trigger] view_list(l)[i] == elem_view(l[i]) by {
        lemma_view_list_len(l);
    }
}

/// True when token text carries no newline and no carriage-return character.
pub open spec fn token_text_ok(t: Seq<char>) -> bool {
    forall|i: int| 0 <= i < t.len() ==> t[i] != '\n' && t[i] != '\r'
}

/// Well-formedness of the IR: token text carries no line or carriage-return
/// characters (all line separation comes from `Line` elements), and a
/// `BestFitting` has at least two variants.
pub open spec fn wf_element(e: ElementView) -> bool
    decreases e,
{
    match e {
        ElementView::Token { text, .. } => token_text_ok(text),
        ElementView::Space => true,
        ElementView::Line { .. } => true,
        ElementView::ExpandParent => true,
        ElementView::LineSuffixBoundary => true,
        ElementView::Indent { content } => wf_list(content),
        ElementView::Group { content, .. } => wf_list(content),
        ElementView::ConditionalGroupContent { content, .. } => wf_list(content),
        ElementView::Fill { separator, items } => wf_element(*separator) && wf_list(items),
        ElementView::LineSuffix { content } => wf_list(content),
        ElementView::Comment { content } => wf_list(content),
        ElementView::Label { content, .. } => wf_list(content),
        ElementView::Interned { element } => wf_element(*element),
        ElementView::BestFitting { variants } => variants.len() >= 2 && wf_list(variants),
        ElementView::List { content } => wf_list(content),
    }
}

/// Every element of the list is well formed.
pub open spec fn wf_list(l: Seq<ElementView>) -> bool
    decreases l,
{
    if l.len() == 0 {
        true
    } else {
        wf_element(l.first()) && wf_list(l.drop_first())
    }
}

/// Every element of a well-formed list is well formed, and any contiguous part
/// of a well-formed list is a well-formed list.
pub proof fn lemma_wf_list_parts(l: Seq<ElementView>)
    requires
        wf_list(l),
    ensures
        forall|i: int| 0 <= i < l.len() ==> #[trigger] wf_element(l[i]),
        forall|i: int, j: int| 0 <= i <= j <= l.len() ==> #[trigger] wf_list(l.subrange(i, j)),
    decreases l,
{
    assert(wf_list(Seq::<ElementView>::empty()));
    if l.len() > 0 {
        lemma_wf_list_parts(l.drop_first());
        assert forall|i: int| 0 <= i < l.len() implies #[trigger] wf_element(l[i]) by {
            if i > 0 {
                assert(l.drop_first()[i - 1] == l[i]);
            }
        }
        assert forall|i: int, j: int| 0 <= i <= j <= l.len() implies #[trigger] wf_list(
            l.subrange(i, j),
        ) by {
            if j > i {
                if i == 0 {
                    assert(l.subrange(0, j).first() == l.first());
                    assert(l.subrange(0, j).drop_first() =~= l.drop_first().subrange(0, j - 1));
                    assert(wf_list(l.drop_first().subrange(0, j - 1)));
                } else {
                    assert(l.subrange(i, j) =~= l.drop_first().subrange(i - 1, j - 1));
                }
            } else {
                assert(l.subrange(i, j) =~= Seq::<ElementView>::empty());
            }
        }
    } else {
        assert forall|i: int, j: int| 0 <= i <= j <= l.len() implies #[trigger] wf_list(
            l.subrange(i, j),
        ) by {
            assert(l.subrange(i, j) =~= Seq::<ElementView>::empty());
        }
    }
}

/// A list of one well-formed element is well formed.
pub proof fn lemma_wf_singleton(v: ElementView)
    requires
        wf_element(v),
    ensures
        wf_list(seq![v]),
{
    assert(seq![v].drop_first() =~= Seq::<ElementView>::empty());
    assert(wf_list(Seq::<ElementView>::empty()));
    assert(seq![v].first() == v);
}

/// A list of two well-formed elements is well formed.
pub proof fn lemma_wf_pair(a: ElementView, b: ElementView)
    requires
        wf_element(a),
        wf_element(b),
    ensures
        wf_list(seq![a, b]),
{
    lemma_wf_singleton(b);
    assert(seq![a, b].drop_first() =~= seq![b]);
    assert(seq![a, b].first() == a);
}

/// A list extended by a well-formed element is well formed.
pub proof fn lemma_wf_list_push(l: Seq<ElementView>, e: ElementView)
    requires
        wf_list(l),
        wf_element(e),
    ensures
        wf_list(l.push(e)),
    decreases l,
{
    assert(wf_list(Seq::<ElementView>::empty()));
    if l.len() == 0 {
        assert(l.push(e).first() == e);
        assert(l.push(e).drop_first() =~= Seq::<ElementView>::empty());
    } else {
        lemma_wf_list_push(l.drop_first(), e);
        assert(l.push(e).first() == l.first());
        assert(l.push(e).drop_first() =~= l.drop_first().push(e));
    }
}

/// The concatenation of two well-formed lists is well formed.
pub proof fn lemma_wf_list_concat(a: Seq<ElementView>, b: Seq<ElementView>)
    requires
        wf_list(a),
        wf_list(b),
    ensures
        wf_list(a + b),
    decreases a,
{
    if a.len() == 0 {
        assert(a + b =~= b);
    } else {
        lemma_wf_list_concat(a.drop_first(), b);
        assert((a + b).first() == a.first());
        assert((a + b).drop_first() =~= a.drop_first() + b);
    }
}

impl FormatElement {
    /// True for an element that prints nothing and carries no content: an empty list.
    pub fn is_empty(&self) -> (r: bool)
        ensures
            r == (self@ matches ElementView::List { content } && content.len() == 0),
    {
        match self {
            FormatElement::List { content } => {
                proof {
                    lemma_view_list_len(content@);
                }
                content.len() == 0
            },
            _ => false,
        }
    }

    /// True for a comment marker element.
    pub fn is_comment(&self) -> (r: bool)
        ensures
            r == (self@ matches ElementView::Comment { .. }),
    {
        matches!(self, FormatElement::Comment { .. })
    }

    /// Wraps this element behind a shared, immutable handle.
    pub fn intern(self) -> (r: FormatElement)
        ensures
            r@ matches ElementView::Interned { element } && *element == self@,
    {
        FormatElement::Interned { element: Box::new(self) }
    }
}

/// An element that prints nothing: the empty list.
pub fn empty_element() -> (r: FormatElement)
    ensures
        r@ matches ElementView::List { content } && content.len() == 0,
        wf_element(r@),
{
    let r = FormatElement::List { content: Vec::new() };
    proof {
        assert(view_list(Seq::<FormatElement>::empty()) =~= Seq::<ElementView>::empty());
        assert(wf_list(Seq::<ElementView>::empty()));
    }
    r
}

/// A copy of the element with the same model.
pub fn clone_element(e: &FormatElement) -> (r: FormatElement)
    ensures
        r@ == e@,
    decreases e,
{
    match e {
        FormatElement::Token { text, source_position } => FormatElement::Token {
            text: text.clone(),
            source_position: *source_position,
        },
        FormatElement::Space => FormatElement::Space,
        FormatElement::Line { line_mode } => FormatElement::Line { line_mode: *line_mode },
        FormatElement::ExpandParent => FormatElement::ExpandParent,
        FormatElement::LineSuffixBoundary => FormatElement::LineSuffixBoundary,
        FormatElement::Indent { content } => FormatElement::Indent { content: clone_list(content) },
        FormatElement::Group { id, content } => FormatElement::Group {
            id: *id,
            content: clone_list(content),
        },
        FormatElement::ConditionalGroupContent { mode, group_id, content } => {
            FormatElement::ConditionalGroupContent {
                mode: *mode,
                group_id: *group_id,
                content: clone_list(content),
            }
        },
        FormatElement::Fill { separator, items } => FormatElement::Fill {
            separator: Box::new(clone_element(separator)),
            items: clone_list(items),
        },
        FormatElement::LineSuffix { content } => FormatElement::LineSuffix {
            content: clone_list(content),
        },
        FormatElement::Comment { content } => FormatElement::Comment {
            content: clone_list(content),
        },
        FormatElement::Label { label, content } => FormatElement::Label {
            label: *label,
            content: clone_list(content),
        },
        FormatElement::Interned { element } => FormatElement::Interned {
            element: Box::new(clone_element(element)),
        },
        FormatElement::BestFitting { variants } => FormatElement::BestFitting {
            variants: clone_list(variants),
        },
        FormatElement::List { content } => FormatElement::List { content: clone_list(content) },
    }
}

/// An element-by-element copy of the list, with the same model.
#[verifier::loop_isolation(false)]
pub fn clone_list(l: &Vec<FormatElement>) -> (r: Vec<FormatElement>)
    ensures
        view_list(r@) == view_list(l@),
    decreases l,
{
    let mut r: Vec<FormatElement> = Vec::new();
    let n = l.len();
    let mut i: usize = 0;
    while i < n
        invariant
            i <= n,
            view_list(r@) =~= view_list(l@.subrange(0, i as int)),
        decreases n - i,
    {
        let ghost prev = r@;
        r.push(clone_element(&l[i]));
        proof {
            lemma_view_list_len_all();
            let last = r@[i as int];
            assert(view_list(prev.push(last)) =~= view_list(prev).push(elem_view(last)));
            assert(view_list(l@.subrange(0, i + 1 as int)) =~= view_list(l@.subrange(0, i as int)).push(
                elem_view(l@[i as int]),
            ));
            assert(view_list(r@) =~= view_list(l@.subrange(0, i + 1 as int)));
        }
        i = i + 1;
    }
    proof {
        lemma_view_list_len_all();
        assert(view_list(l@.subrange(0, n as int)) =~= view_list(l@));
    }
    r
}

} // verus!

