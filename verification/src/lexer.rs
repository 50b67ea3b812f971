//! The lexer: splits source text into tokens and trivia pieces. Together the
//! pieces tile the whole input; trivia on the same line after a token is
//! marked trailing.

use vstd::prelude::*;

use crate::syntax::{SyntaxKind, TriviaPieceKind};

verus! {

/// One piece of trivia as the lexer saw it: kind, position, length, and
/// whether it trails the token before it.
#[derive(Clone, Copy, PartialEq, Eq, Structural, Debug)]
pub struct Trivia {
    pub kind: TriviaPieceKind,
    pub offset: u32,
    pub len: u32,
    pub trailing: bool,
}

/// One token as the lexer saw it: kind and length; positions follow from the
/// order of tokens and trivia.
#[derive(Clone, Copy, PartialEq, Eq, Structural, Debug)]
pub struct LexedToken {
    pub kind: SyntaxKind,
    pub offset: u32,
    pub len: u32,
}

/// True for a character that begins or continues an identifier or number.
pub open spec fn is_word_char(c: char) -> bool {
    ('a' <= c && c <= 'z') || ('A' <= c && c <= 'Z') || ('0' <= c && c <= '9') || c == '_' || c
        == '$' || c == '.'
}

fn is_word_char_exec(c: char) -> (r: bool)
    ensures
        r == is_word_char(c),
{
    ('a' <= c && c <= 'z') || ('A' <= c && c <= 'Z') || ('0' <= c && c <= '9') || c == '_' || c
        == '$' || c == '.'
}

/// Every produced token and trivia piece lies inside the source, and pieces
/// are non-empty.
pub open spec fn lex_output_wf(tokens: Seq<LexedToken>, trivia: Seq<Trivia>, n: int) -> bool {
    &&& forall|i: int|
        0 <= i < tokens.len() ==> (#[trigger] tokens[i]).offset + tokens[i].len <= n
            && tokens[i].len > 0
    &&& forall|i: int|
        0 <= i < trivia.len() ==> (#[trigger] trivia[i]).offset + trivia[i].len <= n
            && trivia[i].len > 0
}

/// Splits the source into tokens and trivia. Whitespace, line breaks and
/// comments become trivia; brackets, semicolons, commas, string literals and
/// words become tokens; any other character becomes a skipped trivia piece.
/// Trivia after a token and before the next line break is marked trailing.
#[verifier::loop_isolation(false)]
pub fn tokenize(source: &Vec<char>) -> (r: (Vec<LexedToken>, Vec<Trivia>))
    requires
        source@.len() <= u32::MAX / 2,
    ensures
        lex_output_wf(r.0@, r.1@, source@.len() as int),
{
    let n = source.len();
    let mut tokens: Vec<LexedToken> = Vec::new();
    let mut trivia: Vec<Trivia> = Vec::new();
    let mut i: usize = 0;
    let mut after_token: bool = false;
    while i < n
        invariant
            i <= n,
            n == source@.len(),
            n <= u32::MAX / 2,
            lex_output_wf(tokens@, trivia@, n as int),
        decreases n - i,
    {
        let c = source[i];
        if c == '\n' {
            trivia.push(
                Trivia { kind: TriviaPieceKind::Newline, offset: i as u32, len: 1, trailing: false },
            );
            after_token = false;
            i = i + 1;
        } else if c == ' ' || c == '\t' || c == '\r' {
            let start = i;
            let mut j = i;
            while j < n && (source[j] == ' ' || source[j] == '\t' || source[j] == '\r')
                invariant
                    start <= j <= n,
                decreases n - j,
            {
                j = j + 1;
            }
            trivia.push(
                Trivia {
                    kind: TriviaPieceKind::Whitespace,
                    offset: start as u32,
                    len: (j - start) as u32,
                    trailing: after_token,
                },
            );
            i = j;
        } else if c == '/' && i + 1 < n && source[i + 1] == '/' {
            let start = i;
            let mut j = i + 2;
            while j < n && source[j] != '\n'
                invariant
                    start + 2 <= j <= n,
                decreases n - j,
            {
                j = j + 1;
            }
            trivia.push(
                Trivia {
                    kind: TriviaPieceKind::SingleLineComment,
                    offset: start as u32,
                    len: (j - start) as u32,
                    trailing: after_token,
                },
            );
            i = j;
        } else if c == '/' && i + 1 < n && source[i + 1] == '*' {
            let start = i;
            let mut j = i + 2;
            while j + 1 < n && !(source[j] == '*' && source[j + 1] == '/')
                invariant
                    start + 2 <= j <= n,
                decreases n - j,
            {
                j = j + 1;
            }
            let end = if j + 1 < n {
                j + 2
            } else {
                n
            };
            trivia.push(
                Trivia {
                    kind: TriviaPieceKind::MultiLineComment,
                    offset: start as u32,
                    len: (end - start) as u32,
                    trailing: after_token,
                },
            );
            i = end;
        } else if c == '[' || c == ']' || c == ';' || c == ',' {
            let kind = if c == '[' {
                SyntaxKind::LBrack
            } else if c == ']' {
                SyntaxKind::RBrack
            } else if c == ';' {
                SyntaxKind::Semicolon
            } else {
                SyntaxKind::Comma
            };
            tokens.push(LexedToken { kind, offset: i as u32, len: 1 });
            after_token = true;
            i = i + 1;
        } else if c == '"' || c == '\'' {
            let start = i;
            let quote = c;
            let mut j = i + 1;
            while j < n && source[j] != quote && source[j] != '\n'
                invariant
                    start + 1 <= j <= n,
                decreases n - j,
            {
                j = j + 1;
            }
            let end = if j < n && source[j] == quote {
                j + 1
            } else {
                j
            };
            tokens.push(
                LexedToken {
                    kind: SyntaxKind::StringToken,
                    offset: start as u32,
                    len: (end - start) as u32,
                },
            );
            after_token = true;
            i = end;
        } else if is_word_char_exec(c) {
            let start = i;
            let mut j = i + 1;
            while j < n && is_word_char_exec(source[j])
                invariant
                    start + 1 <= j <= n,
                decreases n - j,
            {
                j = j + 1;
            }
            tokens.push(
                LexedToken { kind: SyntaxKind::Ident, offset: start as u32, len: (j - start) as u32 },
            );
            after_token = true;
            i = j;
        } else {
            trivia.push(
                Trivia { kind: TriviaPieceKind::Skipped, offset: i as u32, len: 1, trailing: after_token },
            );
            i = i + 1;
        }
    }
    (tokens, trivia)
}

} // verus!
