//! The kinds of tokens and nodes.

use vstd::prelude::*;
use vstd::std_specs::convert::FromSpecImpl;

verus! {

/// The tag of a token or of a node of the syntax tree.
#[derive(Debug, Clone, Copy, PartialEq, Eq, Structural, PartialOrd, Ord, Hash)]
pub enum SyntaxKind {
    /// A run of whitespace characters
    Whitespace,
    /// `// A comment`, up to the end of its line
    Comment,
    /// An identifier
    Ident,
    /// A literal value
    Literal,
    /// `:`
    Colon,
    /// `;`
    SemiColon,
    /// `,`
    Comma,
    /// `(`
    OpenRound,
    /// `)`
    CloseRound,
    /// `[`
    OpenSquare,
    /// `]`
    CloseSquare,
    /// The whole text
    Root,
    /// A statement
    Stmt,
    /// The definition of a shape
    Shape,
    /// An object
    Object,
    /// A list of parameters in brackets
    ParamList,
    /// One parameter
    Param,
    /// The keyword `let`
    Let,
    /// The label of a shape
    Label,
    /// A number
    Value,
    /// A name
    Name,
    /// What could not be parsed
    Error,
    /// A character that the lexer does not know
    Unknown,
    /// The end of the token stream
    Eof,
    /// A placeholder, for what does not exist
    Tombstone,
    /// One past the last kind
    Last,
}

impl SyntaxKind {
    /// Whitespace and comments are trivia: kept in the tree, unseen by the grammar.
    pub open spec fn spec_is_trivia(&self) -> bool {
        *self == SyntaxKind::Whitespace || *self == SyntaxKind::Comment
    }

    /// Whether the kind is whitespace or a comment.
    #[verifier::when_used_as_spec(spec_is_trivia)]
    pub fn is_trivia(&self) -> (r: bool)
        ensures
            r == self.spec_is_trivia(),
    {
        matches!(self, SyntaxKind::Whitespace | SyntaxKind::Comment)
    }

    /// The number that stands for the kind in a tree: its place in the list of kinds.
    pub open spec fn spec_raw(self) -> u16 {
        match self {
            SyntaxKind::Whitespace => 0,
            SyntaxKind::Comment => 1,
            SyntaxKind::Ident => 2,
            SyntaxKind::Literal => 3,
            SyntaxKind::Colon => 4,
            SyntaxKind::SemiColon => 5,
            SyntaxKind::Comma => 6,
            SyntaxKind::OpenRound => 7,
            SyntaxKind::CloseRound => 8,
            SyntaxKind::OpenSquare => 9,
            SyntaxKind::CloseSquare => 10,
            SyntaxKind::Root => 11,
            SyntaxKind::Stmt => 12,
            SyntaxKind::Shape => 13,
            SyntaxKind::Object => 14,
            SyntaxKind::ParamList => 15,
            SyntaxKind::Param => 16,
            SyntaxKind::Let => 17,
            SyntaxKind::Label => 18,
            SyntaxKind::Value => 19,
            SyntaxKind::Name => 20,
            SyntaxKind::Error => 21,
            SyntaxKind::Unknown => 22,
            SyntaxKind::Eof => 23,
            SyntaxKind::Tombstone => 24,
            SyntaxKind::Last => 25,
        }
    }

    /// The kind that a number stands for; `Tombstone` where it stands for none.
    pub open spec fn spec_from_raw(raw: u16) -> SyntaxKind {
        if raw == 0 {
            SyntaxKind::Whitespace
        } else if raw == 1 {
            SyntaxKind::Comment
        } else if raw == 2 {
            SyntaxKind::Ident
        } else if raw == 3 {
            SyntaxKind::Literal
        } else if raw == 4 {
            SyntaxKind::Colon
        } else if raw == 5 {
            SyntaxKind::SemiColon
        } else if raw == 6 {
            SyntaxKind::Comma
        } else if raw == 7 {
            SyntaxKind::OpenRound
        } else if raw == 8 {
            SyntaxKind::CloseRound
        } else if raw == 9 {
            SyntaxKind::OpenSquare
        } else if raw == 10 {
            SyntaxKind::CloseSquare
        } else if raw == 11 {
            SyntaxKind::Root
        } else if raw == 12 {
            SyntaxKind::Stmt
        } else if raw == 13 {
            SyntaxKind::Shape
        } else if raw == 14 {
            SyntaxKind::Object
        } else if raw == 15 {
            SyntaxKind::ParamList
        } else if raw == 16 {
            SyntaxKind::Param
        } else if raw == 17 {
            SyntaxKind::Let
        } else if raw == 18 {
            SyntaxKind::Label
        } else if raw == 19 {
            SyntaxKind::Value
        } else if raw == 20 {
            SyntaxKind::Name
        } else if raw == 21 {
            SyntaxKind::Error
        } else if raw == 22 {
            SyntaxKind::Unknown
        } else if raw == 23 {
            SyntaxKind::Eof
        } else if raw == 25 {
            SyntaxKind::Last
        } else {
            SyntaxKind::Tombstone
        }
    }

    /// The name of the kind, as it is written in a message.
    pub open spec fn spec_name(self) -> Seq<char> {
        match self {
            SyntaxKind::Whitespace => "Whitespace"@,
            SyntaxKind::Comment => "Comment"@,
            SyntaxKind::Ident => "Ident"@,
            SyntaxKind::Literal => "Literal"@,
            SyntaxKind::Colon => "Colon"@,
            SyntaxKind::SemiColon => "SemiColon"@,
            SyntaxKind::Comma => "Comma"@,
            SyntaxKind::OpenRound => "OpenRound"@,
            SyntaxKind::CloseRound => "CloseRound"@,
            SyntaxKind::OpenSquare => "OpenSquare"@,
            SyntaxKind::CloseSquare => "CloseSquare"@,
            SyntaxKind::Root => "Root"@,
            SyntaxKind::Stmt => "Stmt"@,
            SyntaxKind::Shape => "Shape"@,
            SyntaxKind::Object => "Object"@,
            SyntaxKind::ParamList => "ParamList"@,
            SyntaxKind::Param => "Param"@,
            SyntaxKind::Let => "Let"@,
            SyntaxKind::Label => "Label"@,
            SyntaxKind::Value => "Value"@,
            SyntaxKind::Name => "Name"@,
            SyntaxKind::Error => "Error"@,
            SyntaxKind::Unknown => "Unknown"@,
            SyntaxKind::Eof => "Eof"@,
            SyntaxKind::Tombstone => "Tombstone"@,
            SyntaxKind::Last => "Last"@,
        }
    }

    /// The number that stands for the kind in a tree.
    #[verifier::when_used_as_spec(spec_raw)]
    pub fn raw(self) -> (r: u16)
        ensures
            r == self.spec_raw(),
            r <= SyntaxKind::Last.spec_raw(),
    {
        match self {
            SyntaxKind::Whitespace => 0,
            SyntaxKind::Comment => 1,
            SyntaxKind::Ident => 2,
            SyntaxKind::Literal => 3,
            SyntaxKind::Colon => 4,
            SyntaxKind::SemiColon => 5,
            SyntaxKind::Comma => 6,
            SyntaxKind::OpenRound => 7,
            SyntaxKind::CloseRound => 8,
            SyntaxKind::OpenSquare => 9,
            SyntaxKind::CloseSquare => 10,
            SyntaxKind::Root => 11,
            SyntaxKind::Stmt => 12,
            SyntaxKind::Shape => 13,
            SyntaxKind::Object => 14,
            SyntaxKind::ParamList => 15,
            SyntaxKind::Param => 16,
            SyntaxKind::Let => 17,
            SyntaxKind::Label => 18,
            SyntaxKind::Value => 19,
            SyntaxKind::Name => 20,
            SyntaxKind::Error => 21,
            SyntaxKind::Unknown => 22,
            SyntaxKind::Eof => 23,
            SyntaxKind::Tombstone => 24,
            SyntaxKind::Last => 25,
        }
    }

    /// The kind that a number stands for; `Tombstone` where it stands for none.
    #[verifier::when_used_as_spec(spec_from_raw)]
    pub fn from_raw(raw: u16) -> (r: SyntaxKind)
        ensures
            r == SyntaxKind::spec_from_raw(raw),
    {
        if raw == 0 {
            SyntaxKind::Whitespace
        } else if raw == 1 {
            SyntaxKind::Comment
        } else if raw == 2 {
            SyntaxKind::Ident
        } else if raw == 3 {
            SyntaxKind::Literal
        } else if raw == 4 {
            SyntaxKind::Colon
        } else if raw == 5 {
            SyntaxKind::SemiColon
        } else if raw == 6 {
            SyntaxKind::Comma
        } else if raw == 7 {
            SyntaxKind::OpenRound
        } else if raw == 8 {
            SyntaxKind::CloseRound
        } else if raw == 9 {
            SyntaxKind::OpenSquare
        } else if raw == 10 {
            SyntaxKind::CloseSquare
        } else if raw == 11 {
            SyntaxKind::Root
        } else if raw == 12 {
            SyntaxKind::Stmt
        } else if raw == 13 {
            SyntaxKind::Shape
        } else if raw == 14 {
            SyntaxKind::Object
        } else if raw == 15 {
            SyntaxKind::ParamList
        } else if raw == 16 {
            SyntaxKind::Param
        } else if raw == 17 {
            SyntaxKind::Let
        } else if raw == 18 {
            SyntaxKind::Label
        } else if raw == 19 {
            SyntaxKind::Value
        } else if raw == 20 {
            SyntaxKind::Name
        } else if raw == 21 {
            SyntaxKind::Error
        } else if raw == 22 {
            SyntaxKind::Unknown
        } else if raw == 23 {
            SyntaxKind::Eof
        } else if raw == 25 {
            SyntaxKind::Last
        } else {
            SyntaxKind::Tombstone
        }
    }

    /// The name of the kind.
    pub fn name(self) -> (r: &'static str)
        ensures
            r@ == self.spec_name(),
    {
        match self {
            SyntaxKind::Whitespace => "Whitespace",
            SyntaxKind::Comment => "Comment",
            SyntaxKind::Ident => "Ident",
            SyntaxKind::Literal => "Literal",
            SyntaxKind::Colon => "Colon",
            SyntaxKind::SemiColon => "SemiColon",
            SyntaxKind::Comma => "Comma",
            SyntaxKind::OpenRound => "OpenRound",
            SyntaxKind::CloseRound => "CloseRound",
            SyntaxKind::OpenSquare => "OpenSquare",
            SyntaxKind::CloseSquare => "CloseSquare",
            SyntaxKind::Root => "Root",
            SyntaxKind::Stmt => "Stmt",
            SyntaxKind::Shape => "Shape",
            SyntaxKind::Object => "Object",
            SyntaxKind::ParamList => "ParamList",
            SyntaxKind::Param => "Param",
            SyntaxKind::Let => "Let",
            SyntaxKind::Label => "Label",
            SyntaxKind::Value => "Value",
            SyntaxKind::Name => "Name",
            SyntaxKind::Error => "Error",
            SyntaxKind::Unknown => "Unknown",
            SyntaxKind::Eof => "Eof",
            SyntaxKind::Tombstone => "Tombstone",
            SyntaxKind::Last => "Last",
        }
    }

    /// The number of a kind stands for that kind, and for no other.
    pub proof fn lemma_raw_round_trip(self)
        ensures
            SyntaxKind::spec_from_raw(self.spec_raw()) == self,
    {
    }
}

impl From<u16> for SyntaxKind {
    fn from(raw: u16) -> (r: SyntaxKind) {
        SyntaxKind::from_raw(raw)
    }
}

impl FromSpecImpl<u16> for SyntaxKind {
    open spec fn obeys_from_spec() -> bool {
        true
    }

    open spec fn from_spec(raw: u16) -> SyntaxKind {
        SyntaxKind::spec_from_raw(raw)
    }
}

impl From<SyntaxKind> for u16 {
    fn from(kind: SyntaxKind) -> (r: u16) {
        kind.raw()
    }
}

impl FromSpecImpl<SyntaxKind> for u16 {
    open spec fn obeys_from_spec() -> bool {
        true
    }

    open spec fn from_spec(kind: SyntaxKind) -> u16 {
        kind.spec_raw()
    }
}

} // verus!
