//! Language-level formatting configuration: quote style, indentation width,
//! and how this language classifies comments and grouping tokens.

use vstd::prelude::*;

use crate::comments::{CommentKind, CommentStyle};
use crate::printer::{IndentStyle, LineEnding, PrinterOptions};
use crate::syntax::SyntaxKind;

verus! {

/// The quote character used for string literals.
#[derive(Debug, Eq, PartialEq, Structural, Clone, Copy)]
pub enum QuoteStyle {
    Double,
    Single,
}

impl QuoteStyle {
    pub fn as_char(&self) -> (r: char)
        ensures
            r == (if *self == QuoteStyle::Double {
                '"'
            } else {
                '\''
            }),
    {
        match self {
            QuoteStyle::Double => '"',
            QuoteStyle::Single => '\'',
        }
    }

    pub fn as_string(&self) -> (r: &str)
        ensures
            (*self == QuoteStyle::Double) ==> r@ =~= seq!['"'],
            (*self == QuoteStyle::Single) ==> r@ =~= seq!['\''],
    {
        match self {
            QuoteStyle::Double => {
                proof {
                    reveal_strlit("\"");
                }
                "\""
            },
            QuoteStyle::Single => {
                proof {
                    reveal_strlit("'");
                }
                "'"
            },
        }
    }

    /// The quote preceded by a backslash.
    pub fn as_escaped(&self) -> (r: &str)
        ensures
            (*self == QuoteStyle::Double) ==> r@ =~= seq!['\\', '"'],
            (*self == QuoteStyle::Single) ==> r@ =~= seq!['\\', '\''],
    {
        match self {
            QuoteStyle::Double => {
                proof {
                    reveal_strlit("\\\"");
                }
                "\\\""
            },
            QuoteStyle::Single => {
                proof {
                    reveal_strlit("\\'");
                }
                "\\'"
            },
        }
    }

    /// The quote as a byte.
    pub fn as_bytes(&self) -> (r: u8)
        ensures
            r == (if *self == QuoteStyle::Double {
                34u8
            } else {
                39u8
            }),
    {
        match self {
            QuoteStyle::Double => 34,
            QuoteStyle::Single => 39,
        }
    }

    /// The quote as an HTML entity.
    pub fn as_html_entity(&self) -> (r: &str)
        ensures
            (*self == QuoteStyle::Double) ==> r@ == "&quot;"@,
            (*self == QuoteStyle::Single) ==> r@ == "&apos;"@,
    {
        match self {
            QuoteStyle::Double => "&quot;",
            QuoteStyle::Single => "&apos;",
        }
    }

    /// The other quote style.
    pub fn other(&self) -> (r: QuoteStyle)
        ensures
            r == (if *self == QuoteStyle::Double {
                QuoteStyle::Single
            } else {
                QuoteStyle::Double
            }),
    {
        match self {
            QuoteStyle::Double => QuoteStyle::Single,
            QuoteStyle::Single => QuoteStyle::Double,
        }
    }
}

/// The width of one indentation level, in columns.
#[derive(Eq, PartialEq, Structural, Debug, Copy, Clone)]
pub struct TabWidth {
    pub width: u8,
}

impl TabWidth {
    pub fn new(width: u8) -> (r: TabWidth)
        ensures
            r.width == width,
    {
        TabWidth { width }
    }

    pub fn value(&self) -> (r: u8)
        ensures
            r == self.width,
    {
        self.width
    }
}

/// How this language classifies comments and grouping tokens.
#[derive(Eq, PartialEq, Structural, Copy, Clone, Debug)]
pub struct JsCommentStyle;

/// How a comment's text classifies it: text opening with `/*` is a block
/// comment, inline when it holds no line break; anything else is a line
/// comment.
pub open spec fn spec_js_comment_kind(t: Seq<char>) -> CommentKind {
    if t.len() >= 2 && t[0] == '/' && t[1] == '*' {
        if exists|i: int| 0 <= i < t.len() && t[i] == '\n' {
            CommentKind::Block
        } else {
            CommentKind::InlineBlock
        }
    } else {
        CommentKind::Line
    }
}

impl JsCommentStyle {
    /// A comment that opens with `/*` is a block comment: inline when it has
    /// no line break; anything else is a line comment.
    #[verifier::loop_isolation(false)]
    pub fn get_comment_kind(&self, text: &str) -> (r: CommentKind)
        ensures
            r == spec_js_comment_kind(text@),
    {
        let chars = crate::suppression::chars_of(text);
        let n = chars.len();
        if n >= 2 && chars[0] == '/' && chars[1] == '*' {
            let mut has_newline = false;
            let mut i: usize = 0;
            while i < n
                invariant
                    i <= n,
                    n == chars@.len(),
                    has_newline == exists|j: int| 0 <= j < i && chars@[j] == '\n',
                decreases n - i,
            {
                if chars[i] == '\n' {
                    has_newline = true;
                }
                i = i + 1;
            }
            if has_newline {
                CommentKind::Block
            } else {
                CommentKind::InlineBlock
            }
        } else {
            CommentKind::Line
        }
    }

    /// Tokens that open a group: brackets.
    pub fn is_group_start_token(&self, kind: SyntaxKind) -> (r: bool)
        ensures
            r == (kind == SyntaxKind::LBrack),
    {
        matches!(kind, SyntaxKind::LBrack)
    }

    /// Tokens that close a group: closing brackets, commas, semicolons, and
    /// the end of the file.
    pub fn is_group_end_token(&self, kind: SyntaxKind) -> (r: bool)
        ensures
            r == (kind == SyntaxKind::RBrack || kind == SyntaxKind::Comma || kind
                == SyntaxKind::Semicolon || kind == SyntaxKind::Eof),
    {
        matches!(
            kind,
            SyntaxKind::RBrack | SyntaxKind::Comma | SyntaxKind::Semicolon | SyntaxKind::Eof
        )
    }
}

impl CommentStyle for JsCommentStyle {
    open spec fn spec_end_grouping(&self, kind: SyntaxKind) -> bool {
        kind == SyntaxKind::RBrack || kind == SyntaxKind::Comma || kind == SyntaxKind::Semicolon
            || kind == SyntaxKind::Eof
    }

    open spec fn spec_start_grouping(&self, kind: SyntaxKind) -> bool {
        kind == SyntaxKind::LBrack
    }

    open spec fn spec_comment_kind(&self, text: Seq<char>) -> CommentKind {
        spec_js_comment_kind(text)
    }

    fn comment_kind(&self, text: &str) -> (r: CommentKind) {
        self.get_comment_kind(text)
    }

    fn is_end_grouping_token(&self, kind: SyntaxKind) -> (r: bool) {
        self.is_group_end_token(kind)
    }

    fn is_start_grouping_token(&self, kind: SyntaxKind) -> (r: bool) {
        self.is_group_start_token(kind)
    }
}

/// The options a document is formatted with.
#[derive(Eq, PartialEq, Structural, Debug, Copy, Clone)]
pub struct JsFormatOptions {
    pub indent_style: IndentStyle,
    pub line_width: u16,
    pub quote_style: QuoteStyle,
}

impl JsFormatOptions {
    pub fn new() -> (r: JsFormatOptions)
        ensures
            r.indent_style == IndentStyle::Tab,
            r.line_width == 80,
            r.quote_style == QuoteStyle::Double,
    {
        JsFormatOptions {
            indent_style: IndentStyle::Tab,
            line_width: 80,
            quote_style: QuoteStyle::Double,
        }
    }

    pub fn with_line_width(self, line_width: u16) -> (r: JsFormatOptions)
        ensures
            r == (JsFormatOptions { line_width, ..self }),
    {
        JsFormatOptions { line_width, ..self }
    }

    pub fn with_indent_style(self, indent_style: IndentStyle) -> (r: JsFormatOptions)
        ensures
            r == (JsFormatOptions { indent_style, ..self }),
    {
        JsFormatOptions { indent_style, ..self }
    }

    /// The printer options these formatting options stand for.
    pub fn as_print_options(&self) -> (r: PrinterOptions)
        ensures
            r.print_width == self.line_width,
            r.indent_style == self.indent_style,
            r.line_ending == LineEnding::Lf,
    {
        PrinterOptions {
            print_width: self.line_width,
            indent_style: self.indent_style,
            line_ending: LineEnding::Lf,
        }
    }
}

impl core::default::Default for JsFormatOptions {
    /// The defaults: tab indentation, width 80, double quotes.
    fn default() -> (r: JsFormatOptions)
        ensures
            r.indent_style == IndentStyle::Tab,
            r.line_width == 80,
            r.quote_style == QuoteStyle::Double,
    {
        JsFormatOptions::new()
    }
}

} // verus!
