//! Syntax kinds, trivia pieces and tokens of the lossless concrete syntax
//! tree. Offsets and lengths count characters of the source text.

use vstd::prelude::*;

use crate::text::TextRange;

verus! {

broadcast use vstd::std_specs::vec::axiom_vec_decreases_to_view, vstd::seq::axiom_seq_index_decreases;

/// The kind of a token or node in the tree.
#[derive(Clone, Copy, PartialEq, Eq, Structural, Debug)]
pub enum SyntaxKind {
    // Token kinds.
    Eof,
    LBrack,
    RBrack,
    Semicolon,
    Comma,
    Ident,
    StringToken,
    // Node kinds.
    Root,
    StatementList,
    ExpressionStatement,
    ArrayExpression,
    ArrayElementList,
    LiteralExpression,
    ExpressionList,
}

impl SyntaxKind {
    /// True for the kinds that represent syntactic lists.
    pub fn is_list(&self) -> (r: bool)
        ensures
            r == (*self == SyntaxKind::StatementList || *self == SyntaxKind::ArrayElementList
                || *self == SyntaxKind::ExpressionList),
    {
        matches!(
            self,
            SyntaxKind::StatementList | SyntaxKind::ArrayElementList | SyntaxKind::ExpressionList
        )
    }

    /// True for the root kind.
    pub fn is_root(&self) -> (r: bool)
        ensures
            r == (*self == SyntaxKind::Root),
    {
        matches!(self, SyntaxKind::Root)
    }
}

/// The classification of one piece of trivia.
#[derive(Clone, Copy, PartialEq, Eq, Structural, Debug)]
pub enum TriviaPieceKind {
    /// Blanks and tabs.
    Whitespace,
    /// One line break.
    Newline,
    /// A `//` comment.
    SingleLineComment,
    /// A `/* ... */` comment.
    MultiLineComment,
    /// Source text skipped over after an error.
    Skipped,
}

impl TriviaPieceKind {
    /// True for the two comment kinds.
    pub fn is_comments(&self) -> (r: bool)
        ensures
            r == (*self == TriviaPieceKind::SingleLineComment || *self
                == TriviaPieceKind::MultiLineComment),
    {
        matches!(self, TriviaPieceKind::SingleLineComment | TriviaPieceKind::MultiLineComment)
    }
}

/// One piece of trivia: its kind and its length in characters.
#[derive(Clone, Copy, PartialEq, Eq, Structural, Debug)]
pub struct TriviaPiece {
    pub kind: TriviaPieceKind,
    pub length: u32,
}

impl TriviaPiece {
    pub fn new(kind: TriviaPieceKind, length: u32) -> (r: TriviaPiece)
        ensures
            r == (TriviaPiece { kind, length }),
    {
        TriviaPiece { kind, length }
    }

    /// A whitespace piece of the given length.
    pub fn whitespace(length: u32) -> (r: TriviaPiece)
        ensures
            r == (TriviaPiece { kind: TriviaPieceKind::Whitespace, length }),
    {
        TriviaPiece { kind: TriviaPieceKind::Whitespace, length }
    }
}

/// The number of characters the trivia pieces cover together.
pub open spec fn trivia_len(pieces: Seq<TriviaPiece>) -> int
    decreases pieces,
{
    if pieces.len() == 0 {
        0int
    } else {
        trivia_len(pieces.drop_last()) + pieces.last().length
    }
}

/// Trivia never covers a negative number of characters, and a prefix covers
/// no more than the whole.
pub proof fn lemma_trivia_len_parts(pieces: Seq<TriviaPiece>)
    ensures
        trivia_len(pieces) >= 0,
        forall|i: int|
            0 <= i <= pieces.len() ==> #[trigger] trivia_len(pieces.take(i)) <= trivia_len(pieces)
                && trivia_len(pieces.take(i)) >= 0,
    decreases pieces,
{
    if pieces.len() > 0 {
        lemma_trivia_len_parts(pieces.drop_last());
        assert forall|i: int|
            0 <= i <= pieces.len() implies #[trigger] trivia_len(pieces.take(i)) <= trivia_len(
            pieces,
        ) && trivia_len(pieces.take(i)) >= 0 by {
            if i == pieces.len() {
                assert(pieces.take(i) =~= pieces);
            } else {
                assert(pieces.take(i) =~= pieces.drop_last().take(i));
            }
        }
    } else {
        assert forall|i: int|
            0 <= i <= pieces.len() implies #[trigger] trivia_len(pieces.take(i)) <= trivia_len(
            pieces,
        ) && trivia_len(pieces.take(i)) >= 0 by {
            assert(pieces.take(i) =~= pieces);
        }
    }
}

/// An immutable token: its kind, its full text (trivia included), the
/// classification of its leading and trailing trivia, and its offset in the
/// source document.
#[derive(Debug)]
pub struct SyntaxToken {
    pub kind: SyntaxKind,
    pub text: String,
    pub leading: Vec<TriviaPiece>,
    pub trailing: Vec<TriviaPiece>,
    pub offset: u32,
}

impl SyntaxToken {
    /// The token accounts for every character of its text: the leading
    /// trivia, then the trimmed text, then the trailing trivia; and its range
    /// stays within the address space of source offsets.
    pub open spec fn wf(self) -> bool {
        &&& trivia_len(self.leading@) + trivia_len(self.trailing@) <= self.text@.len()
        &&& self.offset + self.text@.len() <= u32::MAX
    }

    /// Where the trimmed text begins inside the token text.
    pub open spec fn spec_trim_start(self) -> int {
        trivia_len(self.leading@)
    }

    /// Where the trimmed text ends inside the token text.
    pub open spec fn spec_trim_end(self) -> int {
        self.text@.len() - trivia_len(self.trailing@)
    }

    /// A token detached from any tree.
    pub fn new_detached(
        kind: SyntaxKind,
        text: &str,
        leading: Vec<TriviaPiece>,
        trailing: Vec<TriviaPiece>,
    ) -> (r: SyntaxToken)
        requires
            trivia_len(leading@) + trivia_len(trailing@) <= text@.len(),
            text@.len() <= u32::MAX,
        ensures
            r.kind == kind,
            r.text@ == text@,
            r.leading == leading,
            r.trailing == trailing,
            r.offset == 0,
            r.wf(),
    {
        SyntaxToken { kind, text: text.to_owned(), leading, trailing, offset: 0 }
    }

    pub fn kind(&self) -> (r: SyntaxKind)
        ensures
            r == self.kind,
    {
        self.kind
    }

    /// The full text, trivia included.
    pub fn text(&self) -> (r: &str)
        ensures
            r@ == self.text@,
    {
        self.text.as_str()
    }

    /// The number of characters of leading trivia.
    #[verifier::loop_isolation(false)]
    pub fn leading_len(&self) -> (r: u32)
        requires
            self.wf(),
        ensures
            r == trivia_len(self.leading@),
    {
        let mut sum: u64 = 0;
        let n = self.leading.len();
        let mut i: usize = 0;
        proof {
            lemma_trivia_len_parts(self.leading@);
            lemma_trivia_len_parts(self.trailing@);
            assert(self.leading@.take(0) =~= Seq::<TriviaPiece>::empty());
        }
        while i < n
            invariant
                i <= n,
                sum == trivia_len(self.leading@.take(i as int)),
                sum <= self.text@.len(),
            decreases n - i,
        {
            proof {
                assert(self.leading@.take(i + 1).drop_last() =~= self.leading@.take(i as int));
                assert(self.leading@.take(i + 1).last() == self.leading@[i as int]);
            }
            sum = sum + self.leading[i].length as u64;
            proof {
                assert(sum == trivia_len(self.leading@.take(i + 1)));
                assert(trivia_len(self.leading@.take(i + 1)) <= trivia_len(self.leading@));
            }
            i = i + 1;
        }
        proof {
            assert(self.leading@.take(n as int) =~= self.leading@);
        }
        sum as u32
    }

    /// The number of characters of trailing trivia.
    #[verifier::loop_isolation(false)]
    pub fn trailing_len(&self) -> (r: u32)
        requires
            self.wf(),
        ensures
            r == trivia_len(self.trailing@),
    {
        let mut sum: u64 = 0;
        let n = self.trailing.len();
        let mut i: usize = 0;
        proof {
            lemma_trivia_len_parts(self.trailing@);
            lemma_trivia_len_parts(self.leading@);
            assert(self.trailing@.take(0) =~= Seq::<TriviaPiece>::empty());
        }
        while i < n
            invariant
                i <= n,
                sum == trivia_len(self.trailing@.take(i as int)),
                sum <= self.text@.len(),
            decreases n - i,
        {
            proof {
                assert(self.trailing@.take(i + 1).drop_last() =~= self.trailing@.take(i as int));
                assert(self.trailing@.take(i + 1).last() == self.trailing@[i as int]);
            }
            sum = sum + self.trailing[i].length as u64;
            proof {
                assert(sum == trivia_len(self.trailing@.take(i + 1)));
                assert(trivia_len(self.trailing@.take(i + 1)) <= trivia_len(self.trailing@));
            }
            i = i + 1;
        }
        proof {
            assert(self.trailing@.take(n as int) =~= self.trailing@);
        }
        sum as u32
    }

    /// The text without trivia.
    pub fn text_trimmed(&self) -> (r: &str)
        requires
            self.wf(),
        ensures
            r@ == self.text@.subrange(self.spec_trim_start(), self.spec_trim_end()),
    {
        let a = self.leading_len();
        let b = self.trailing_len();
        let n = self.text.as_str().unicode_len();
        self.text.as_str().substring_char(a as usize, n - b as usize)
    }

    /// The full text as an owned string.
    pub fn token_text(&self) -> (r: String)
        ensures
            r@ == self.text@,
    {
        self.text.clone()
    }

    /// The trimmed text as an owned string.
    pub fn token_text_trimmed(&self) -> (r: String)
        requires
            self.wf(),
        ensures
            r@ == self.text@.subrange(self.spec_trim_start(), self.spec_trim_end()),
    {
        self.text_trimmed().to_owned()
    }

    /// The range the whole token covers, trivia included.
    pub fn text_range(&self) -> (r: TextRange)
        requires
            self.wf(),
        ensures
            r.start == self.offset,
            r.end == self.offset + self.text@.len(),
    {
        let n = self.text.as_str().unicode_len();
        TextRange::at(self.offset, n as u32)
    }

    /// The range of the trimmed text.
    pub fn text_trimmed_range(&self) -> (r: TextRange)
        requires
            self.wf(),
        ensures
            r.start == self.offset + self.spec_trim_start(),
            r.end == self.offset + self.spec_trim_end(),
    {
        let a = self.leading_len();
        let b = self.trailing_len();
        let n = self.text.as_str().unicode_len();
        TextRange::new(self.offset + a, self.offset + (n as u32 - b))
    }

    /// The leading trivia pieces.
    pub fn leading_trivia(&self) -> (r: &Vec<TriviaPiece>)
        ensures
            r == &self.leading,
    {
        &self.leading
    }

    /// The trailing trivia pieces.
    pub fn trailing_trivia(&self) -> (r: &Vec<TriviaPiece>)
        ensures
            r == &self.trailing,
    {
        &self.trailing
    }

    /// True when some leading trivia piece is a comment.
    #[verifier::loop_isolation(false)]
    pub fn has_leading_comments(&self) -> (r: bool)
        ensures
            r == exists|i: int|
                0 <= i < self.leading@.len() && (#[trigger] self.leading@[i].kind)
                    == TriviaPieceKind::SingleLineComment || 0 <= i < self.leading@.len()
                    && self.leading@[i].kind == TriviaPieceKind::MultiLineComment,
    {
        let n = self.leading.len();
        let mut i: usize = 0;
        while i < n
            invariant
                i <= n,
                forall|j: int|
                    0 <= j < i ==> (#[trigger] self.leading@[j].kind)
                        != TriviaPieceKind::SingleLineComment && self.leading@[j].kind
                        != TriviaPieceKind::MultiLineComment,
            decreases n - i,
        {
            if self.leading[i].kind.is_comments() {
                return true;
            }
            i = i + 1;
        }
        false
    }

    /// True when some trailing trivia piece is a comment.
    #[verifier::loop_isolation(false)]
    pub fn has_trailing_comments(&self) -> (r: bool)
        ensures
            r == exists|i: int|
                0 <= i < self.trailing@.len() && (#[trigger] self.trailing@[i].kind)
                    == TriviaPieceKind::SingleLineComment || 0 <= i < self.trailing@.len()
                    && self.trailing@[i].kind == TriviaPieceKind::MultiLineComment,
    {
        let n = self.trailing.len();
        let mut i: usize = 0;
        while i < n
            invariant
                i <= n,
                forall|j: int|
                    0 <= j < i ==> (#[trigger] self.trailing@[j].kind)
                        != TriviaPieceKind::SingleLineComment && self.trailing@[j].kind
                        != TriviaPieceKind::MultiLineComment,
            decreases n - i,
        {
            if self.trailing[i].kind.is_comments() {
                return true;
            }
            i = i + 1;
        }
        false
    }

    /// Two tokens carry the same data: same kind, text, trivia and offset.
    pub open spec fn same_token(self, other: SyntaxToken) -> bool {
        &&& self.kind == other.kind
        &&& self.text@ == other.text@
        &&& self.leading@ == other.leading@
        &&& self.trailing@ == other.trailing@
        &&& self.offset == other.offset
    }

    /// A copy of this token.
    pub fn clone_token(&self) -> (r: SyntaxToken)
        ensures
            r.kind == self.kind,
            r.text@ == self.text@,
            r.leading@ == self.leading@,
            r.trailing@ == self.trailing@,
            r.offset == self.offset,
            self.wf() ==> r.wf(),
    {
        SyntaxToken {
            kind: self.kind,
            text: self.text.clone(),
            leading: copy_pieces(&self.leading),
            trailing: copy_pieces(&self.trailing),
            offset: self.offset,
        }
    }
}

/// An element-by-element copy of trivia pieces.
#[verifier::loop_isolation(false)]
pub fn copy_pieces(v: &Vec<TriviaPiece>) -> (r: Vec<TriviaPiece>)
    ensures
        r@ == v@,
{
    let mut r: Vec<TriviaPiece> = Vec::new();
    let n = v.len();
    let mut i: usize = 0;
    while i < n
        invariant
            i <= n,
            r@ =~= v@.take(i as int),
        decreases n - i,
    {
        r.push(v[i]);
        proof {
            assert(r@ =~= v@.take(i + 1));
        }
        i = i + 1;
    }
    proof {
        assert(v@.take(n as int) =~= v@);
    }
    r
}

} // verus!
