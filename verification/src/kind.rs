//! The closed set of syntax kinds, shared by the tokenizer and the tree, and
//! the bridge between a kind and the numeric tag under which the tree stores
//! it.

use vstd::prelude::*;

verus! {

/// The category of a token or of a node.
#[derive(Clone, Copy, Debug, PartialEq, Eq, PartialOrd, Ord, Hash, Structural)]
pub enum SyntaxKind {
    Whitespace,
    FnKw,
    LetKw,
    Ident,
    Number,
    Plus,
    Minus,
    Star,
    Slash,
    Equals,
    LParen,
    RParen,
    LBrace,
    RBrace,
    Error,
    Root,
    BinaryExpr,
    PrefixExpr,
    ParenExpr,
}

/// How many kinds there are; the tags in use are the numbers below it.
pub const KIND_COUNT: u16 = 19;

/// The tag of a kind: its place in the declaration, from zero.
pub open spec fn raw_of(kind: SyntaxKind) -> u16 {
    match kind {
        SyntaxKind::Whitespace => 0,
        SyntaxKind::FnKw => 1,
        SyntaxKind::LetKw => 2,
        SyntaxKind::Ident => 3,
        SyntaxKind::Number => 4,
        SyntaxKind::Plus => 5,
        SyntaxKind::Minus => 6,
        SyntaxKind::Star => 7,
        SyntaxKind::Slash => 8,
        SyntaxKind::Equals => 9,
        SyntaxKind::LParen => 10,
        SyntaxKind::RParen => 11,
        SyntaxKind::LBrace => 12,
        SyntaxKind::RBrace => 13,
        SyntaxKind::Error => 14,
        SyntaxKind::Root => 15,
        SyntaxKind::BinaryExpr => 16,
        SyntaxKind::PrefixExpr => 17,
        SyntaxKind::ParenExpr => 18,
    }
}

/// The kind behind a tag. A number that is no kind's tag reads as `Error`,
/// so that the function is total.
pub open spec fn kind_of(raw: u16) -> SyntaxKind {
    if raw == 0 {
        SyntaxKind::Whitespace
    } else if raw == 1 {
        SyntaxKind::FnKw
    } else if raw == 2 {
        SyntaxKind::LetKw
    } else if raw == 3 {
        SyntaxKind::Ident
    } else if raw == 4 {
        SyntaxKind::Number
    } else if raw == 5 {
        SyntaxKind::Plus
    } else if raw == 6 {
        SyntaxKind::Minus
    } else if raw == 7 {
        SyntaxKind::Star
    } else if raw == 8 {
        SyntaxKind::Slash
    } else if raw == 9 {
        SyntaxKind::Equals
    } else if raw == 10 {
        SyntaxKind::LParen
    } else if raw == 11 {
        SyntaxKind::RParen
    } else if raw == 12 {
        SyntaxKind::LBrace
    } else if raw == 13 {
        SyntaxKind::RBrace
    } else if raw == 15 {
        SyntaxKind::Root
    } else if raw == 16 {
        SyntaxKind::BinaryExpr
    } else if raw == 17 {
        SyntaxKind::PrefixExpr
    } else if raw == 18 {
        SyntaxKind::ParenExpr
    } else {
        SyntaxKind::Error
    }
}

/// The name under which a kind appears in a rendered tree.
pub open spec fn name_of(kind: SyntaxKind) -> Seq<char> {
    match kind {
        SyntaxKind::Whitespace => "Whitespace"@,
        SyntaxKind::FnKw => "FnKw"@,
        SyntaxKind::LetKw => "LetKw"@,
        SyntaxKind::Ident => "Ident"@,
        SyntaxKind::Number => "Number"@,
        SyntaxKind::Plus => "Plus"@,
        SyntaxKind::Minus => "Minus"@,
        SyntaxKind::Star => "Star"@,
        SyntaxKind::Slash => "Slash"@,
        SyntaxKind::Equals => "Equals"@,
        SyntaxKind::LParen => "LParen"@,
        SyntaxKind::RParen => "RParen"@,
        SyntaxKind::LBrace => "LBrace"@,
        SyntaxKind::RBrace => "RBrace"@,
        SyntaxKind::Error => "Error"@,
        SyntaxKind::Root => "Root"@,
        SyntaxKind::BinaryExpr => "BinaryExpr"@,
        SyntaxKind::PrefixExpr => "PrefixExpr"@,
        SyntaxKind::ParenExpr => "ParenExpr"@,
    }
}

impl SyntaxKind {
    /// The numeric tag under which the tree stores this kind.
    pub fn to_raw(self) -> (raw: u16)
        ensures
            raw == raw_of(self),
            raw < KIND_COUNT,
    {
        match self {
            SyntaxKind::Whitespace => 0,
            SyntaxKind::FnKw => 1,
            SyntaxKind::LetKw => 2,
            SyntaxKind::Ident => 3,
            SyntaxKind::Number => 4,
            SyntaxKind::Plus => 5,
            SyntaxKind::Minus => 6,
            SyntaxKind::Star => 7,
            SyntaxKind::Slash => 8,
            SyntaxKind::Equals => 9,
            SyntaxKind::LParen => 10,
            SyntaxKind::RParen => 11,
            SyntaxKind::LBrace => 12,
            SyntaxKind::RBrace => 13,
            SyntaxKind::Error => 14,
            SyntaxKind::Root => 15,
            SyntaxKind::BinaryExpr => 16,
            SyntaxKind::PrefixExpr => 17,
            SyntaxKind::ParenExpr => 18,
        }
    }

    /// The kind that a numeric tag stands for.
    pub fn from_raw(raw: u16) -> (kind: SyntaxKind)
        ensures
            kind == kind_of(raw),
    {
        match raw {
            0 => SyntaxKind::Whitespace,
            1 => SyntaxKind::FnKw,
            2 => SyntaxKind::LetKw,
            3 => SyntaxKind::Ident,
            4 => SyntaxKind::Number,
            5 => SyntaxKind::Plus,
            6 => SyntaxKind::Minus,
            7 => SyntaxKind::Star,
            8 => SyntaxKind::Slash,
            9 => SyntaxKind::Equals,
            10 => SyntaxKind::LParen,
            11 => SyntaxKind::RParen,
            12 => SyntaxKind::LBrace,
            13 => SyntaxKind::RBrace,
            15 => SyntaxKind::Root,
            16 => SyntaxKind::BinaryExpr,
            17 => SyntaxKind::PrefixExpr,
            18 => SyntaxKind::ParenExpr,
            _ => SyntaxKind::Error,
        }
    }

    /// The name of this kind, as a rendered tree shows it.
    pub fn name(self) -> (name: &'static str)
        ensures
            name@ == name_of(self),
    {
        match self {
            SyntaxKind::Whitespace => "Whitespace",
            SyntaxKind::FnKw => "FnKw",
            SyntaxKind::LetKw => "LetKw",
            SyntaxKind::Ident => "Ident",
            SyntaxKind::Number => "Number",
            SyntaxKind::Plus => "Plus",
            SyntaxKind::Minus => "Minus",
            SyntaxKind::Star => "Star",
            SyntaxKind::Slash => "Slash",
            SyntaxKind::Equals => "Equals",
            SyntaxKind::LParen => "LParen",
            SyntaxKind::RParen => "RParen",
            SyntaxKind::LBrace => "LBrace",
            SyntaxKind::RBrace => "RBrace",
            SyntaxKind::Error => "Error",
            SyntaxKind::Root => "Root",
            SyntaxKind::BinaryExpr => "BinaryExpr",
            SyntaxKind::PrefixExpr => "PrefixExpr",
            SyntaxKind::ParenExpr => "ParenExpr",
        }
    }
}

/// Going from a kind to its tag and back gives the kind again.
pub proof fn lemma_raw_round_trip(kind: SyntaxKind)
    ensures
        kind_of(raw_of(kind)) == kind,
        raw_of(kind) < KIND_COUNT,
{
}

/// Two kinds with the same tag are the same kind.
pub proof fn lemma_raw_injective(a: SyntaxKind, b: SyntaxKind)
    requires
        raw_of(a) == raw_of(b),
    ensures
        a == b,
{
    lemma_raw_round_trip(a);
    lemma_raw_round_trip(b);
}

/// Going from a tag that is in use to its kind and back gives the tag again.
pub proof fn lemma_kind_round_trip(raw: u16)
    requires
        raw < KIND_COUNT,
    ensures
        raw_of(kind_of(raw)) == raw,
{
}

} // verus!
