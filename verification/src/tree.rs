//! The lossless concrete syntax tree: nodes own their children, tokens carry
//! their trivia, and every character of the source text is accounted for.

use vstd::prelude::*;

use crate::syntax::{SyntaxKind, SyntaxToken, TriviaPiece, TriviaPieceKind};
use crate::text::TextRange;

verus! {

broadcast use vstd::std_specs::vec::axiom_vec_decreases_to_view, vstd::seq::axiom_seq_index_decreases;

/// A node of the tree: its kind and its children in document order.
#[derive(Debug)]
pub struct SyntaxNode {
    pub kind: SyntaxKind,
    pub children: Vec<SyntaxElement>,
}

/// One element of the tree: an inner node or a token.
#[derive(Debug)]
pub enum SyntaxElement {
    Node(SyntaxNode),
    Token(SyntaxToken),
}

/// The tokens of an element, in document order.
pub open spec fn elem_tokens(e: SyntaxElement) -> Seq<SyntaxToken>
    decreases e,
{
    match e {
        SyntaxElement::Token(t) => seq![t],
        SyntaxElement::Node(n) => list_tokens(n.children@),
    }
}

/// The tokens of a list of elements, in document order.
pub open spec fn list_tokens(l: Seq<SyntaxElement>) -> Seq<SyntaxToken>
    decreases l,
{
    if l.len() == 0 {
        Seq::empty()
    } else {
        list_tokens(l.drop_last()) + elem_tokens(l.last())
    }
}

/// The tokens of a node, in document order.
pub open spec fn node_tokens(n: SyntaxNode) -> Seq<SyntaxToken> {
    list_tokens(n.children@)
}

/// The source text a sequence of tokens covers, trivia included.
pub open spec fn tokens_text(ts: Seq<SyntaxToken>) -> Seq<char>
    decreases ts,
{
    if ts.len() == 0 {
        Seq::empty()
    } else {
        tokens_text(ts.drop_last()) + ts.last().text@
    }
}

/// Every token of the element is well formed.
pub open spec fn wf_tokens(ts: Seq<SyntaxToken>) -> bool {
    forall|i: int| 0 <= i < ts.len() ==> (#[trigger] ts[i]).wf()
}

/// Well-formedness of tokens survives concatenation.
pub proof fn lemma_wf_tokens_concat(a: Seq<SyntaxToken>, b: Seq<SyntaxToken>)
    requires
        wf_tokens(a),
        wf_tokens(b),
    ensures
        wf_tokens(a + b),
{
    assert forall|i: int| 0 <= i < (a + b).len() implies (#[trigger] (a + b)[i]).wf() by {
        if i < a.len() {
            assert((a + b)[i] == a[i]);
        } else {
            assert((a + b)[i] == b[i - a.len()]);
        }
    }
}

/// Concatenating token lists concatenates their text.
pub proof fn lemma_tokens_text_concat(a: Seq<SyntaxToken>, b: Seq<SyntaxToken>)
    ensures
        tokens_text(a + b) == tokens_text(a) + tokens_text(b),
    decreases b,
{
    if b.len() == 0 {
        assert(a + b =~= a);
        assert(tokens_text(a) + tokens_text(b) =~= tokens_text(a));
    } else {
        lemma_tokens_text_concat(a, b.drop_last());
        assert((a + b).drop_last() =~= a + b.drop_last());
        assert((a + b).last() == b.last());
        assert(tokens_text(a) + tokens_text(b.drop_last()) + b.last().text@ =~= tokens_text(a)
            + tokens_text(b));
    }
}

impl SyntaxNode {
    pub fn kind(&self) -> (r: SyntaxKind)
        ensures
            r == self.kind,
    {
        self.kind
    }

    /// The source text of the node, trivia included.
    pub fn text(&self) -> (r: String)
        ensures
            r@ == tokens_text(node_tokens(*self)),
    {
        let mut out = String::new();
        node_text_into(self, &mut out);
        out
    }

    /// The first token of the node, in document order.
    pub fn first_token(&self) -> (r: Option<&SyntaxToken>)
        ensures
            node_tokens(*self).len() == 0 ==> r is None,
            node_tokens(*self).len() > 0 ==> (r matches Some(t) && *t == node_tokens(*self).first()),
    {
        list_first_token(&self.children)
    }

    /// The last token of the node, in document order.
    pub fn last_token(&self) -> (r: Option<&SyntaxToken>)
        ensures
            node_tokens(*self).len() == 0 ==> r is None,
            node_tokens(*self).len() > 0 ==> (r matches Some(t) && *t == node_tokens(*self).last()),
    {
        list_last_token(&self.children)
    }
}

/// Appends the text of every token under the element.
#[verifier::loop_isolation(false)]
fn elem_text_into(e: &SyntaxElement, out: &mut String)
    ensures
        final(out)@ == old(out)@ + tokens_text(elem_tokens(*e)),
    decreases e,
{
    match e {
        SyntaxElement::Token(t) => {
            out.append(t.text.as_str());
            proof {
                assert(elem_tokens(*e) =~= seq![*t]);
                assert(seq![*t].drop_last() =~= Seq::<SyntaxToken>::empty());
                assert(tokens_text(Seq::<SyntaxToken>::empty()) =~= Seq::<char>::empty());
                assert(tokens_text(seq![*t]) =~= t.text@);
            }
        },
        SyntaxElement::Node(n) => {
            node_text_into(n, out);
        },
    }
}

/// Appends the text of every token under the node.
#[verifier::loop_isolation(false)]
fn node_text_into(n: &SyntaxNode, out: &mut String)
    ensures
        final(out)@ == old(out)@ + tokens_text(node_tokens(*n)),
    decreases n,
{
    let m = n.children.len();
    let mut i: usize = 0;
    proof {
        assert(list_tokens(n.children@.take(0)) =~= Seq::<SyntaxToken>::empty());
        assert(out@ =~= old(out)@ + tokens_text(list_tokens(n.children@.take(0))));
    }
    while i < m
        invariant
            i <= m,
            out@ =~= old(out)@ + tokens_text(list_tokens(n.children@.take(i as int))),
        decreases m - i,
    {
        let ghost pre = list_tokens(n.children@.take(i as int));
        elem_text_into(&n.children[i], out);
        proof {
            assert(n.children@.take(i + 1).drop_last() =~= n.children@.take(i as int));
            assert(n.children@.take(i + 1).last() == n.children@[i as int]);
            lemma_tokens_text_concat(pre, elem_tokens(n.children@[i as int]));
        }
        i = i + 1;
    }
    proof {
        assert(n.children@.take(m as int) =~= n.children@);
    }
}

/// The first token under the elements of the list, in document order.
#[verifier::loop_isolation(false)]
fn list_first_token(l: &Vec<SyntaxElement>) -> (r: Option<&SyntaxToken>)
    ensures
        list_tokens(l@).len() == 0 ==> r is None,
        list_tokens(l@).len() > 0 ==> (r matches Some(t) && *t == list_tokens(l@).first()),
    decreases l,
{
    let m = l.len();
    let mut i: usize = 0;
    proof {
        assert(list_tokens(l@.take(0)) =~= Seq::<SyntaxToken>::empty());
    }
    while i < m
        invariant
            i <= m,
            list_tokens(l@.take(i as int)) =~= Seq::<SyntaxToken>::empty(),
        decreases m - i,
    {
        proof {
            assert(l@.take(i + 1).drop_last() =~= l@.take(i as int));
            assert(l@.take(i + 1).last() == l@[i as int]);
        }
        let found: Option<&SyntaxToken> = match &l[i] {
            SyntaxElement::Token(t) => {
                proof {
                    assert(elem_tokens(l@[i as int]) =~= seq![*t]);
                }
                Some(t)
            },
            SyntaxElement::Node(n) => list_first_token(&n.children),
        };
        match found {
            Some(t) => {
                proof {
                    lemma_list_tokens_split(l@, i as int);
                }
                return Some(t);
            },
            None => {
                proof {
                    assert(elem_tokens(l@[i as int]).len() == 0);
                    assert(list_tokens(l@.take(i + 1)) =~= list_tokens(l@.take(i as int))
                        + elem_tokens(l@[i as int]));
                    assert(list_tokens(l@.take(i + 1)) =~= Seq::<SyntaxToken>::empty());
                }
            },
        }
        i = i + 1;
    }
    proof {
        assert(l@.take(m as int) =~= l@);
    }
    None
}

/// The last token under the elements of the list, in document order.
#[verifier::loop_isolation(false)]
fn list_last_token(l: &Vec<SyntaxElement>) -> (r: Option<&SyntaxToken>)
    ensures
        list_tokens(l@).len() == 0 ==> r is None,
        list_tokens(l@).len() > 0 ==> (r matches Some(t) && *t == list_tokens(l@).last()),
    decreases l,
{
    let m = l.len();
    let mut i: usize = m;
    proof {
        assert(list_tokens(l@.skip(m as int)) =~= Seq::<SyntaxToken>::empty());
    }
    while i > 0
        invariant
            i <= m,
            list_tokens(l@.skip(i as int)) =~= Seq::<SyntaxToken>::empty(),
        decreases i,
    {
        proof {
            lemma_list_tokens_split(l@, i - 1);
            assert(l@.skip(i - 1).first() == l@[i - 1]);
        }
        let found: Option<&SyntaxToken> = match &l[i - 1] {
            SyntaxElement::Token(t) => {
                proof {
                    assert(elem_tokens(l@[i - 1]) =~= seq![*t]);
                }
                Some(t)
            },
            SyntaxElement::Node(n) => list_last_token(&n.children),
        };
        match found {
            Some(t) => {
                proof {
                    assert(list_tokens(l@) == list_tokens(l@.take(i - 1)) + elem_tokens(
                        l@[i - 1],
                    ) + list_tokens(l@.skip(i as int)));
                    assert(elem_tokens(l@[i - 1]).len() > 0);
                    assert(list_tokens(l@).last() == elem_tokens(l@[i - 1]).last());
                }
                return Some(t);
            },
            None => {
                proof {
                    assert(elem_tokens(l@[i - 1]).len() == 0);
                    assert(l@.skip(i - 1).drop_first() =~= l@.skip(i as int));
                    lemma_list_tokens_split(l@.skip(i - 1), 0);
                    assert(list_tokens(l@.skip(i - 1)) =~= Seq::<SyntaxToken>::empty());
                }
            },
        }
        i = i - 1;
    }
    proof {
        assert(l@.skip(0) =~= l@);
    }
    None
}

/// The tokens of a list split at `i`: the tokens before, the tokens of the
/// element at `i`, and the tokens after.
pub proof fn lemma_list_tokens_split(l: Seq<SyntaxElement>, i: int)
    requires
        0 <= i < l.len(),
    ensures
        list_tokens(l) == list_tokens(l.take(i)) + elem_tokens(l[i]) + list_tokens(l.skip(i + 1)),
    decreases l,
{
    if i == l.len() - 1 {
        assert(l.drop_last() =~= l.take(i));
        assert(l.last() == l[i]);
        assert(list_tokens(l.skip(i + 1)) =~= Seq::<SyntaxToken>::empty());
        assert(list_tokens(l.take(i)) + elem_tokens(l[i]) + list_tokens(l.skip(i + 1))
            =~= list_tokens(l.take(i)) + elem_tokens(l[i]));
    } else {
        lemma_list_tokens_split(l.drop_last(), i);
        assert(l.drop_last().take(i) =~= l.take(i));
        assert(l.drop_last()[i] == l[i]);
        assert(l.drop_last().skip(i + 1) =~= l.skip(i + 1).drop_last());
        lemma_tokens_text_concat(Seq::empty(), Seq::empty());
        lemma_list_tokens_append(l.skip(i + 1));
        assert(list_tokens(l) =~= list_tokens(l.drop_last()) + elem_tokens(l.last()));
        assert(l.skip(i + 1).last() == l.last());
        assert(list_tokens(l) =~= list_tokens(l.take(i)) + elem_tokens(l[i]) + list_tokens(
            l.skip(i + 1),
        ));
    }
}

/// The tokens of a list with its last element are the tokens without it plus
/// that element's tokens.
pub proof fn lemma_list_tokens_append(l: Seq<SyntaxElement>)
    requires
        l.len() > 0,
    ensures
        list_tokens(l) == list_tokens(l.drop_last()) + elem_tokens(l.last()),
{
}

/// Concatenates the text of the given tokens, trivia included.
#[verifier::loop_isolation(false)]
pub fn concat_tokens(tokens: &Vec<SyntaxToken>) -> (r: String)
    ensures
        r@ == tokens_text(tokens@),
{
    let mut out = String::new();
    let n = tokens.len();
    let mut i: usize = 0;
    proof {
        assert(tokens_text(tokens@.take(0)) =~= Seq::<char>::empty());
    }
    while i < n
        invariant
            i <= n,
            out@ =~= tokens_text(tokens@.take(i as int)),
        decreases n - i,
    {
        out.append(tokens[i].text.as_str());
        proof {
            assert(tokens@.take(i + 1).drop_last() =~= tokens@.take(i as int));
            assert(tokens@.take(i + 1).last() == tokens@[i as int]);
        }
        i = i + 1;
    }
    proof {
        assert(tokens@.take(n as int) =~= tokens@);
    }
    out
}

} // verus!
