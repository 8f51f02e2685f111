//! The tokens that the parser consumes: a kind, the text it was read from and
//! the place of that text in the source.

use vstd::prelude::*;
use crate::ast::view_each;

verus! {

/// The kinds of tokens.
#[derive(Debug, Clone, Copy, PartialEq, Eq, Structural)]
pub enum TokenKind {
    /// Input that is no token of the language.
    Error,
    /// The end of the input.
    End,
    KeywordProgram,
    KeywordEndProgram,
    KeywordVar,
    KeywordEndVar,
    KeywordIf,
    KeywordThen,
    KeywordElseIf,
    KeywordElse,
    KeywordEndIf,
    KeywordFor,
    KeywordTo,
    KeywordBy,
    KeywordDo,
    KeywordEndFor,
    KeywordWhile,
    KeywordEndWhile,
    KeywordRepeat,
    KeywordUntil,
    KeywordEndRepeat,
    KeywordColon,
    KeywordSemicolon,
    KeywordParensOpen,
    KeywordParensClose,
    KeywordAssignment,
    OperatorPlus,
    OperatorMinus,
    OperatorMultiplication,
    OperatorDivision,
    OperatorModulo,
    OperatorEqual,
    OperatorNotEqual,
    OperatorLess,
    OperatorGreater,
    OperatorLessOrEqual,
    OperatorGreaterOrEqual,
    OperatorAnd,
    OperatorOr,
    OperatorXor,
    OperatorNot,
    Identifier,
    LiteralNumber,
    LiteralReal,
    LiteralTrue,
    LiteralFalse,
}

impl TokenKind {
    /// The name of the kind, as diagnostics show it.
    pub open spec fn spec_name(self) -> Seq<char> {
        match self {
            TokenKind::Error => "Error"@,
            TokenKind::End => "End"@,
            TokenKind::KeywordProgram => "KeywordProgram"@,
            TokenKind::KeywordEndProgram => "KeywordEndProgram"@,
            TokenKind::KeywordVar => "KeywordVar"@,
            TokenKind::KeywordEndVar => "KeywordEndVar"@,
            TokenKind::KeywordIf => "KeywordIf"@,
            TokenKind::KeywordThen => "KeywordThen"@,
            TokenKind::KeywordElseIf => "KeywordElseIf"@,
            TokenKind::KeywordElse => "KeywordElse"@,
            TokenKind::KeywordEndIf => "KeywordEndIf"@,
            TokenKind::KeywordFor => "KeywordFor"@,
            TokenKind::KeywordTo => "KeywordTo"@,
            TokenKind::KeywordBy => "KeywordBy"@,
            TokenKind::KeywordDo => "KeywordDo"@,
            TokenKind::KeywordEndFor => "KeywordEndFor"@,
            TokenKind::KeywordWhile => "KeywordWhile"@,
            TokenKind::KeywordEndWhile => "KeywordEndWhile"@,
            TokenKind::KeywordRepeat => "KeywordRepeat"@,
            TokenKind::KeywordUntil => "KeywordUntil"@,
            TokenKind::KeywordEndRepeat => "KeywordEndRepeat"@,
            TokenKind::KeywordColon => "KeywordColon"@,
            TokenKind::KeywordSemicolon => "KeywordSemicolon"@,
            TokenKind::KeywordParensOpen => "KeywordParensOpen"@,
            TokenKind::KeywordParensClose => "KeywordParensClose"@,
            TokenKind::KeywordAssignment => "KeywordAssignment"@,
            TokenKind::OperatorPlus => "OperatorPlus"@,
            TokenKind::OperatorMinus => "OperatorMinus"@,
            TokenKind::OperatorMultiplication => "OperatorMultiplication"@,
            TokenKind::OperatorDivision => "OperatorDivision"@,
            TokenKind::OperatorModulo => "OperatorModulo"@,
            TokenKind::OperatorEqual => "OperatorEqual"@,
            TokenKind::OperatorNotEqual => "OperatorNotEqual"@,
            TokenKind::OperatorLess => "OperatorLess"@,
            TokenKind::OperatorGreater => "OperatorGreater"@,
            TokenKind::OperatorLessOrEqual => "OperatorLessOrEqual"@,
            TokenKind::OperatorGreaterOrEqual => "OperatorGreaterOrEqual"@,
            TokenKind::OperatorAnd => "OperatorAnd"@,
            TokenKind::OperatorOr => "OperatorOr"@,
            TokenKind::OperatorXor => "OperatorXor"@,
            TokenKind::OperatorNot => "OperatorNot"@,
            TokenKind::Identifier => "Identifier"@,
            TokenKind::LiteralNumber => "LiteralNumber"@,
            TokenKind::LiteralReal => "LiteralReal"@,
            TokenKind::LiteralTrue => "LiteralTrue"@,
            TokenKind::LiteralFalse => "LiteralFalse"@,
        }
    }

    /// The name of the kind, as diagnostics show it.
    pub fn name(&self) -> (result: &'static str)
        ensures
            result@ == self.spec_name(),
    {
        match self {
            TokenKind::Error => "Error",
            TokenKind::End => "End",
            TokenKind::KeywordProgram => "KeywordProgram",
            TokenKind::KeywordEndProgram => "KeywordEndProgram",
            TokenKind::KeywordVar => "KeywordVar",
            TokenKind::KeywordEndVar => "KeywordEndVar",
            TokenKind::KeywordIf => "KeywordIf",
            TokenKind::KeywordThen => "KeywordThen",
            TokenKind::KeywordElseIf => "KeywordElseIf",
            TokenKind::KeywordElse => "KeywordElse",
            TokenKind::KeywordEndIf => "KeywordEndIf",
            TokenKind::KeywordFor => "KeywordFor",
            TokenKind::KeywordTo => "KeywordTo",
            TokenKind::KeywordBy => "KeywordBy",
            TokenKind::KeywordDo => "KeywordDo",
            TokenKind::KeywordEndFor => "KeywordEndFor",
            TokenKind::KeywordWhile => "KeywordWhile",
            TokenKind::KeywordEndWhile => "KeywordEndWhile",
            TokenKind::KeywordRepeat => "KeywordRepeat",
            TokenKind::KeywordUntil => "KeywordUntil",
            TokenKind::KeywordEndRepeat => "KeywordEndRepeat",
            TokenKind::KeywordColon => "KeywordColon",
            TokenKind::KeywordSemicolon => "KeywordSemicolon",
            TokenKind::KeywordParensOpen => "KeywordParensOpen",
            TokenKind::KeywordParensClose => "KeywordParensClose",
            TokenKind::KeywordAssignment => "KeywordAssignment",
            TokenKind::OperatorPlus => "OperatorPlus",
            TokenKind::OperatorMinus => "OperatorMinus",
            TokenKind::OperatorMultiplication => "OperatorMultiplication",
            TokenKind::OperatorDivision => "OperatorDivision",
            TokenKind::OperatorModulo => "OperatorModulo",
            TokenKind::OperatorEqual => "OperatorEqual",
            TokenKind::OperatorNotEqual => "OperatorNotEqual",
            TokenKind::OperatorLess => "OperatorLess",
            TokenKind::OperatorGreater => "OperatorGreater",
            TokenKind::OperatorLessOrEqual => "OperatorLessOrEqual",
            TokenKind::OperatorGreaterOrEqual => "OperatorGreaterOrEqual",
            TokenKind::OperatorAnd => "OperatorAnd",
            TokenKind::OperatorOr => "OperatorOr",
            TokenKind::OperatorXor => "OperatorXor",
            TokenKind::OperatorNot => "OperatorNot",
            TokenKind::Identifier => "Identifier",
            TokenKind::LiteralNumber => "LiteralNumber",
            TokenKind::LiteralReal => "LiteralReal",
            TokenKind::LiteralTrue => "LiteralTrue",
            TokenKind::LiteralFalse => "LiteralFalse",
        }
    }

    /// Whether the kind bounds a block: the end of the input, the keyword that
    /// opens a program and every keyword that closes or continues a block.
    /// No statement starts at such a token, and skipping after an error stops
    /// in front of it.
    pub open spec fn spec_is_block_boundary(self) -> bool {
        matches!(
            self,
            TokenKind::End
                | TokenKind::KeywordProgram
                | TokenKind::KeywordEndProgram
                | TokenKind::KeywordEndVar
                | TokenKind::KeywordElseIf
                | TokenKind::KeywordElse
                | TokenKind::KeywordEndIf
                | TokenKind::KeywordEndFor
                | TokenKind::KeywordEndWhile
                | TokenKind::KeywordUntil
                | TokenKind::KeywordEndRepeat
        )
    }

    /// Whether the kind bounds a block.
    pub fn is_block_boundary(&self) -> (result: bool)
        ensures
            result == self.spec_is_block_boundary(),
    {
        matches!(
            self,
            TokenKind::End
                | TokenKind::KeywordProgram
                | TokenKind::KeywordEndProgram
                | TokenKind::KeywordEndVar
                | TokenKind::KeywordElseIf
                | TokenKind::KeywordElse
                | TokenKind::KeywordEndIf
                | TokenKind::KeywordEndFor
                | TokenKind::KeywordEndWhile
                | TokenKind::KeywordUntil
                | TokenKind::KeywordEndRepeat
        )
    }
}

/// A half-open range of byte offsets into the source.
#[derive(Debug, Clone, Copy, PartialEq, Eq, Structural)]
pub struct SourceRange {
    pub start: usize,
    pub end: usize,
}

impl SourceRange {
    /// The range from `start` up to, not including, `end`.
    pub fn new(start: usize, end: usize) -> (result: SourceRange)
        ensures
            result == (SourceRange { start, end }),
    {
        SourceRange { start, end }
    }
}

/// A token: its kind, the source text it was read from and where that text stands.
#[derive(Debug, Clone, PartialEq, Eq)]
pub struct Token {
    pub kind: TokenKind,
    pub slice: String,
    pub range: SourceRange,
}

/// The model of a [`Token`].
pub struct TokenView {
    pub kind: TokenKind,
    pub slice: Seq<char>,
    pub range: SourceRange,
}

impl View for Token {
    type V = TokenView;

    open spec fn view(&self) -> TokenView {
        TokenView { kind: self.kind, slice: self.slice@, range: self.range }
    }
}

impl Token {
    /// A token of the given kind, read from `slice` at the bytes `start..end`.
    pub fn new(kind: TokenKind, slice: &str, start: usize, end: usize) -> (result: Token)
        ensures
            result@ == (TokenView { kind, slice: slice@, range: SourceRange { start, end } }),
    {
        Token { kind, slice: String::from_str(slice), range: SourceRange { start, end } }
    }
}

/// The tokens of one source text, in source order, and the offset at which
/// the text ends. Behind the last token the stream reads as the end of the
/// input for ever: an empty text at the end offset.
#[derive(Debug, Clone, PartialEq, Eq)]
pub struct TokenStream {
    pub tokens: Vec<Token>,
    pub end: usize,
}

/// The model of a [`TokenStream`].
pub struct TokenStreamView {
    pub tokens: Seq<TokenView>,
    pub end: usize,
}

impl View for TokenStream {
    type V = TokenStreamView;

    open spec fn view(&self) -> TokenStreamView {
        TokenStreamView { tokens: view_each(self.tokens@), end: self.end }
    }
}

impl TokenStreamView {
    /// The number of tokens.
    pub open spec fn len(self) -> nat {
        self.tokens.len()
    }

    /// The kind of the token at `pos`.
    pub open spec fn kind_at(self, pos: nat) -> TokenKind {
        if pos < self.tokens.len() {
            self.tokens[pos as int].kind
        } else {
            TokenKind::End
        }
    }

    /// The text of the token at `pos`.
    pub open spec fn slice_at(self, pos: nat) -> Seq<char> {
        if pos < self.tokens.len() {
            self.tokens[pos as int].slice
        } else {
            Seq::empty()
        }
    }

    /// The place of the token at `pos`.
    pub open spec fn range_at(self, pos: nat) -> SourceRange {
        if pos < self.tokens.len() {
            self.tokens[pos as int].range
        } else {
            SourceRange { start: self.end, end: self.end }
        }
    }

    /// The position behind the token at `pos`; the end of the input is never left.
    pub open spec fn advance(self, pos: nat) -> nat {
        if pos < self.tokens.len() {
            pos + 1
        } else {
            pos
        }
    }
}

impl TokenStream {
    /// The stream of the given tokens over a source text of `end` bytes.
    pub fn new(tokens: Vec<Token>, end: usize) -> (result: TokenStream)
        ensures
            result@ == (TokenStreamView { tokens: view_each(tokens@), end }),
    {
        TokenStream { tokens, end }
    }

    /// The number of tokens.
    pub fn len(&self) -> (result: usize)
        ensures
            result == self@.len(),
    {
        self.tokens.len()
    }

    /// The kind of the token at `pos`.
    pub fn kind_at(&self, pos: usize) -> (result: TokenKind)
        ensures
            result == self@.kind_at(pos as nat),
            self@.len() <= usize::MAX,
    {
        if pos < self.tokens.len() {
            self.tokens[pos].kind
        } else {
            TokenKind::End
        }
    }

    /// The text of the token at `pos`.
    pub fn slice_at(&self, pos: usize) -> (result: &str)
        ensures
            result@ == self@.slice_at(pos as nat),
    {
        if pos < self.tokens.len() {
            self.tokens[pos].slice.as_str()
        } else {
            proof {
                reveal_strlit("");
                assert(""@ =~= Seq::<char>::empty());
            }
            ""
        }
    }

    /// The place of the token at `pos`.
    pub fn range_at(&self, pos: usize) -> (result: SourceRange)
        ensures
            result == self@.range_at(pos as nat),
    {
        if pos < self.tokens.len() {
            self.tokens[pos].range
        } else {
            SourceRange { start: self.end, end: self.end }
        }
    }

    /// The position behind the token at `pos`.
    pub fn advance(&self, pos: usize) -> (result: usize)
        ensures
            result == self@.advance(pos as nat),
            self@.len() <= usize::MAX,
    {
        if pos < self.tokens.len() {
            pos + 1
        } else {
            pos
        }
    }
}

} // verus!
