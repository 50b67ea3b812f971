//! Builds the lossless tree from parser events, attaching trivia to tokens:
//! everything up to a token (line breaks included) becomes its leading
//! trivia; everything after it up to, but not including, the next line break
//! becomes its trailing trivia.

use vstd::prelude::*;

use crate::lexer::Trivia;
use crate::suppression::chars_of;
use crate::syntax::{trivia_len, SyntaxKind, SyntaxToken, TriviaPiece};
use crate::tree::{
    elem_tokens, lemma_wf_tokens_concat, list_tokens, node_tokens, wf_tokens, SyntaxElement,
    SyntaxNode,
};

verus! {

broadcast use vstd::std_specs::vec::axiom_vec_decreases_to_view, vstd::seq::axiom_seq_index_decreases;

/// Converts tokens and trivia into a syntax tree, slicing the source text so
/// that every character lands in exactly one token.
pub struct LosslessTreeSink {
    pub source: Vec<char>,
    pub trivia_list: Vec<Trivia>,
    pub text_pos: usize,
    pub trivia_pos: usize,
    pub stack: Vec<SyntaxNode>,
    pub needs_eof: bool,
}

/// Every open node's tokens are well formed.
pub open spec fn frames_wf(stack: Seq<SyntaxNode>) -> bool {
    forall|i: int| 0 <= i < stack.len() ==> wf_tokens(node_tokens(#[trigger] stack[i]))
}

/// The text the open frames hold so far: the token text of every frame, in
/// order, trivia included.
pub open spec fn stack_text(stack: Seq<SyntaxNode>) -> Seq<char>
    decreases stack,
{
    if stack.len() == 0 {
        Seq::empty()
    } else {
        stack_text(stack.drop_last()) + crate::tree::tokens_text(node_tokens(stack.last()))
    }
}

impl LosslessTreeSink {
    /// The sink stays inside its source text, and every token built so far
    /// is well formed.
    pub open spec fn base_wf(self) -> bool {
        &&& self.text_pos <= self.source@.len()
        &&& self.source@.len() <= u32::MAX / 2
        &&& self.trivia_pos <= self.trivia_list@.len()
        &&& forall|i: int|
            0 <= i < self.trivia_list@.len() ==> (#[trigger] self.trivia_list@[i]).offset
                + self.trivia_list@[i].len <= self.source@.len()
        &&& frames_wf(self.stack@)
    }

    /// Between events the sink is also lossless: the text of the tokens
    /// built so far is exactly the source consumed so far.
    pub open spec fn wf(self) -> bool {
        &&& self.base_wf()
        &&& stack_text(self.stack@) == self.source@.take(self.text_pos as int)
    }

    /// A sink over the source text and the trivia the lexer found in it.
    pub fn new(text: &str, trivia: Vec<Trivia>) -> (r: LosslessTreeSink)
        requires
            text@.len() <= u32::MAX / 2,
            forall|i: int|
                0 <= i < trivia@.len() ==> (#[trigger] trivia@[i]).offset + trivia@[i].len
                    <= text@.len(),
        ensures
            r.wf(),
            r.stack@.len() == 0,
            r.source@ == text@,
            r.text_pos == 0,
    {
        let r = LosslessTreeSink {
            source: chars_of(text),
            trivia_list: trivia,
            text_pos: 0,
            trivia_pos: 0,
            stack: Vec::new(),
            needs_eof: true,
        };
        proof {
            assert(stack_text(r.stack@) =~= Seq::<char>::empty());
            assert(r.source@.take(0) =~= Seq::<char>::empty());
        }
        r
    }

    /// Opens a node of the given kind.
    pub fn start_node(&mut self, kind: SyntaxKind)
        requires
            old(self).wf(),
        ensures
            final(self).wf(),
            final(self).stack@.len() == old(self).stack@.len() + 1,
            final(self).source@ == old(self).source@,
    {
        let node = SyntaxNode { kind, children: Vec::new() };
        proof {
            assert(node_tokens(node) =~= Seq::<crate::syntax::SyntaxToken>::empty());
            assert(wf_tokens(node_tokens(node)));
        }
        self.stack.push(node);
        proof {
            assert forall|i: int| 0 <= i < self.stack@.len() implies wf_tokens(
                node_tokens(#[trigger] self.stack@[i]),
            ) by {
                if i < old(self).stack@.len() {
                    assert(self.stack@[i] == old(self).stack@[i]);
                }
            }
            assert(self.stack@.drop_last() =~= old(self).stack@);
            assert(crate::tree::tokens_text(node_tokens(node)) =~= Seq::<char>::empty());
            assert(stack_text(self.stack@) =~= stack_text(old(self).stack@));
        }
    }

    /// Closes the current node and attaches it to its parent. Closing the
    /// root node first synthesises the end-of-file token, so that any
    /// remaining trivia has a token to lead.
    pub fn finish_node(&mut self)
        requires
            old(self).wf(),
            old(self).stack@.len() > 0,
        ensures
            final(self).wf(),
            old(self).stack@.len() >= 2 ==> final(self).stack@.len() + 1 == old(
                self,
            ).stack@.len(),
            old(self).stack@.len() < 2 ==> final(self).stack@.len() == old(self).stack@.len(),
            final(self).source@ == old(self).source@,
    {
        if self.stack.len() == 1 && self.needs_eof {
            self.token(SyntaxKind::Eof, 0);
        }
        if self.stack.len() >= 2 {
            match self.stack.pop() {
                Some(node) => {
                    let ghost nodev = node;
                    let ghost pre_stack = self.stack@;
                    let top = self.stack.len() - 1;
                    let frame = &mut self.stack[top];
                    let ghost pre_children = frame.children@;
                    let ghost pre_frame = *frame;
                    frame.children.push(SyntaxElement::Node(node));
                    proof {
                        assert(frame.children@.drop_last() =~= pre_children);
                        assert(frame.children@.last() == SyntaxElement::Node(nodev));
                        assert(list_tokens(frame.children@) =~= list_tokens(pre_children)
                            + elem_tokens(SyntaxElement::Node(nodev)));
                        lemma_wf_tokens_concat(
                            list_tokens(pre_children),
                            node_tokens(nodev),
                        );
                        assert forall|i: int| 0 <= i < self.stack@.len() implies wf_tokens(
                            node_tokens(#[trigger] self.stack@[i]),
                        ) by {
                            if i != top {
                                assert(self.stack@[i] == pre_stack[i]);
                            }
                        }
                        // Losslessness: moving the closed node under its
                        // parent rearranges no text.
                        assert(stack_text(pre_stack) == stack_text(pre_stack.drop_last())
                            + crate::tree::tokens_text(node_tokens(pre_stack.last())));
                        crate::tree::lemma_tokens_text_concat(
                            node_tokens(pre_stack.last()),
                            node_tokens(nodev),
                        );
                        assert(node_tokens(self.stack@.last()) =~= node_tokens(pre_stack.last())
                            + node_tokens(nodev));
                        assert(crate::tree::tokens_text(node_tokens(self.stack@.last()))
                            =~= crate::tree::tokens_text(node_tokens(pre_stack.last()))
                            + crate::tree::tokens_text(node_tokens(nodev)));
                        assert(self.stack@.drop_last() =~= pre_stack.drop_last());
                        assert(stack_text(self.stack@) =~= stack_text(pre_stack)
                            + crate::tree::tokens_text(node_tokens(nodev)));
                    }
                },
                None => {},
            }
        }
    }

    /// Consumes the trivia at the cursor with the given trailing
    /// classification, returning the pieces and advancing over their text.
    #[verifier::loop_isolation(false)]
    fn eat_trivia(&mut self, trailing: bool) -> (r: Vec<TriviaPiece>)
        requires
            old(self).base_wf(),
        ensures
            final(self).base_wf(),
            final(self).source == old(self).source,
            final(self).trivia_list == old(self).trivia_list,
            final(self).stack == old(self).stack,
            final(self).needs_eof == old(self).needs_eof,
            old(self).text_pos <= final(self).text_pos,
            trivia_len(r@) == final(self).text_pos - old(self).text_pos,
    {
        let mut pieces: Vec<TriviaPiece> = Vec::new();
        proof {
            assert(trivia_len(pieces@) == 0);
        }
        loop
            invariant
                self.base_wf(),
                self.source == old(self).source,
                self.trivia_list == old(self).trivia_list,
                self.stack == old(self).stack,
                self.needs_eof == old(self).needs_eof,
                old(self).text_pos <= self.text_pos,
                trivia_len(pieces@) == self.text_pos - old(self).text_pos,
            decreases self.trivia_list@.len() - self.trivia_pos,
        {
            if self.trivia_pos >= self.trivia_list.len() {
                break;
            }
            let t = self.trivia_list[self.trivia_pos];
            if t.trailing != trailing || t.offset as usize != self.text_pos {
                break;
            }
            let ghost pre = pieces@;
            pieces.push(TriviaPiece { kind: t.kind, length: t.len });
            self.text_pos = self.text_pos + t.len as usize;
            self.trivia_pos = self.trivia_pos + 1;
            proof {
                assert(pieces@.drop_last() =~= pre);
            }
        }
        pieces
    }

    /// Adds a token of the given kind and length: the trivia before it (all
    /// of it) becomes leading, the trivia after it on the same line becomes
    /// trailing, and the token's text is sliced out of the source.
    pub fn token(&mut self, kind: SyntaxKind, length: u32)
        requires
            old(self).wf(),
            old(self).stack@.len() > 0,
        ensures
            final(self).wf(),
            final(self).stack@.len() == old(self).stack@.len(),
            final(self).source@ == old(self).source@,
    {
        if matches!(kind, SyntaxKind::Eof) {
            self.needs_eof = false;
        }
        let token_start = self.text_pos;
        let leading = self.eat_trivia(false);
        let trim_start = self.text_pos;
        let n = self.source.len();
        let room = n - self.text_pos;
        let len_eff: usize = if (length as usize) <= room {
            length as usize
        } else {
            room
        };
        self.text_pos = self.text_pos + len_eff;
        let trailing = self.eat_trivia(true);
        let text = crate::suppression::string_of_range_pub(&self.source, token_start, self.text_pos);
        let token = SyntaxToken {
            kind,
            text,
            leading,
            trailing,
            offset: token_start as u32,
        };
        proof {
            assert(token.wf());
        }
        let ghost tokenv = token;
        let ghost pre_stack = self.stack@;
        let ghost pos_after = self.text_pos as int;
        let top = self.stack.len() - 1;
        let frame = &mut self.stack[top];
        let ghost pre_children = frame.children@;
        frame.children.push(SyntaxElement::Token(token));
        proof {
            assert(frame.children@.drop_last() =~= pre_children);
            assert(frame.children@.last() == SyntaxElement::Token(tokenv));
            assert(list_tokens(frame.children@) =~= list_tokens(pre_children) + elem_tokens(
                SyntaxElement::Token(tokenv),
            ));
            assert(elem_tokens(SyntaxElement::Token(tokenv)) =~= seq![tokenv]);
            assert(wf_tokens(seq![tokenv]));
            lemma_wf_tokens_concat(list_tokens(pre_children), seq![tokenv]);
            assert forall|i: int| 0 <= i < self.stack@.len() implies wf_tokens(
                node_tokens(#[trigger] self.stack@[i]),
            ) by {
                if i != top {
                    assert(self.stack@[i] == pre_stack[i]);
                }
            }
            // Losslessness: the new token's text is exactly the source
            // consumed since the previous token.
            assert(self.stack@.drop_last() =~= pre_stack.drop_last());
            crate::tree::lemma_tokens_text_concat(list_tokens(pre_children), seq![tokenv]);
            assert(seq![tokenv].drop_last() =~= Seq::<crate::syntax::SyntaxToken>::empty());
            assert(crate::tree::tokens_text(Seq::<crate::syntax::SyntaxToken>::empty()) =~= Seq::<
                char,
            >::empty());
            assert(crate::tree::tokens_text(seq![tokenv]) =~= tokenv.text@);
            assert(stack_text(pre_stack) == stack_text(pre_stack.drop_last())
                + crate::tree::tokens_text(node_tokens(pre_stack.last())));
            assert(node_tokens(self.stack@.last()) =~= node_tokens(pre_stack.last()) + seq![
                tokenv,
            ]);
            assert(crate::tree::tokens_text(node_tokens(self.stack@.last()))
                =~= crate::tree::tokens_text(node_tokens(pre_stack.last())) + tokenv.text@);
            assert(stack_text(self.stack@) =~= stack_text(pre_stack) + tokenv.text@);
            assert(self.source@.take(pos_after) =~= self.source@.take(token_start as int)
                + self.source@.subrange(token_start as int, pos_after));
            assert(stack_text(self.stack@) =~= self.source@.take(pos_after));
        }
    }

    /// The finished tree: the last node left open, its tokens all well
    /// formed; an empty root stands in when nothing is open. When the root
    /// was the only open node, its text is exactly the source consumed: no
    /// character is lost, invented, or duplicated.
    pub fn finish(self) -> (r: SyntaxNode)
        requires
            self.wf(),
        ensures
            wf_tokens(node_tokens(r)),
            self.stack@.len() == 1 ==> crate::tree::tokens_text(node_tokens(r))
                == self.source@.take(self.text_pos as int),
    {
        let LosslessTreeSink { mut stack, .. } = self;
        proof {
            if stack@.len() == 1 {
                assert(stack@.drop_last() =~= Seq::<SyntaxNode>::empty());
                assert(stack_text(Seq::<SyntaxNode>::empty()) =~= Seq::<char>::empty());
                assert(stack_text(stack@) =~= crate::tree::tokens_text(
                    node_tokens(stack@.last()),
                ));
            }
        }
        match stack.pop() {
            Some(node) => node,
            None => {
                let r = SyntaxNode { kind: SyntaxKind::Root, children: Vec::new() };
                proof {
                    assert(node_tokens(r) =~= Seq::<crate::syntax::SyntaxToken>::empty());
                }
                r
            },
        }
    }
}

} // verus!
