//! Token kinds of the nxc frontend, independent of rnix.
use vstd::prelude::*;

verus! {

#[derive(Clone, Copy, Debug, PartialEq, Eq, Structural, Hash, PartialOrd, Ord)]
pub enum SyntaxKind {
    Whitespace,
    LineComment,
    BlockComment,
    Ident,
    Integer,
    Float,
    RelativePath,
    AbsolutePath,
    HomePath,
    SearchPath,
    /// A path prefix followed by an interpolation.
    PathStart,
    /// Literal path text after an interpolation.
    PathContent,
    LParen,
    RParen,
    LBracket,
    RBracket,
    LBrace,
    RBrace,
    Comma,
    Plus,
    PlusPlus,
    Minus,
    Star,
    Slash,
    Bang,
    EqualEqual,
    NotEqual,
    Less,
    LessEqual,
    Greater,
    GreaterEqual,
    AndAnd,
    OrOr,
    Fn,
    Arrow,
    Question,
    Ellipsis,
    At,
    Dot,
    Assign,
    Semicolon,
    Rec,
    Inherit,
    Or,
    Let,
    Yield,
    With,
    Assert,
    If,
    Then,
    Else,
    StringStart,
    StringContent,
    StringEnd,
    InterpolationStart,
    InterpolationEnd,
    ErrorToken,
}

/// Whitespace and comments.
pub open spec fn spec_is_trivia(k: SyntaxKind) -> bool {
    k is Whitespace || k is LineComment || k is BlockComment
}

/// Tokens that open a nesting level.
pub open spec fn spec_is_opening(k: SyntaxKind) -> bool {
    k is LParen || k is LBrace || k is LBracket || k is StringStart || k is InterpolationStart
}

/// Tokens that close a nesting level.
pub open spec fn spec_is_closing(k: SyntaxKind) -> bool {
    k is RParen || k is RBrace || k is RBracket || k is StringEnd || k is InterpolationEnd
}


/// A kind's number in a syntax tree: its position among the kinds.
pub open spec fn spec_to_raw(k: SyntaxKind) -> u16 {
    match k {
        SyntaxKind::Whitespace => 0,
        SyntaxKind::LineComment => 1,
        SyntaxKind::BlockComment => 2,
        SyntaxKind::Ident => 3,
        SyntaxKind::Integer => 4,
        SyntaxKind::Float => 5,
        SyntaxKind::RelativePath => 6,
        SyntaxKind::AbsolutePath => 7,
        SyntaxKind::HomePath => 8,
        SyntaxKind::SearchPath => 9,
        SyntaxKind::PathStart => 10,
        SyntaxKind::PathContent => 11,
        SyntaxKind::LParen => 12,
        SyntaxKind::RParen => 13,
        SyntaxKind::LBracket => 14,
        SyntaxKind::RBracket => 15,
        SyntaxKind::LBrace => 16,
        SyntaxKind::RBrace => 17,
        SyntaxKind::Comma => 18,
        SyntaxKind::Plus => 19,
        SyntaxKind::PlusPlus => 20,
        SyntaxKind::Minus => 21,
        SyntaxKind::Star => 22,
        SyntaxKind::Slash => 23,
        SyntaxKind::Bang => 24,
        SyntaxKind::EqualEqual => 25,
        SyntaxKind::NotEqual => 26,
        SyntaxKind::Less => 27,
        SyntaxKind::LessEqual => 28,
        SyntaxKind::Greater => 29,
        SyntaxKind::GreaterEqual => 30,
        SyntaxKind::AndAnd => 31,
        SyntaxKind::OrOr => 32,
        SyntaxKind::Fn => 33,
        SyntaxKind::Arrow => 34,
        SyntaxKind::Question => 35,
        SyntaxKind::Ellipsis => 36,
        SyntaxKind::At => 37,
        SyntaxKind::Dot => 38,
        SyntaxKind::Assign => 39,
        SyntaxKind::Semicolon => 40,
        SyntaxKind::Rec => 41,
        SyntaxKind::Inherit => 42,
        SyntaxKind::Or => 43,
        SyntaxKind::Let => 44,
        SyntaxKind::Yield => 45,
        SyntaxKind::With => 46,
        SyntaxKind::Assert => 47,
        SyntaxKind::If => 48,
        SyntaxKind::Then => 49,
        SyntaxKind::Else => 50,
        SyntaxKind::StringStart => 51,
        SyntaxKind::StringContent => 52,
        SyntaxKind::StringEnd => 53,
        SyntaxKind::InterpolationStart => 54,
        SyntaxKind::InterpolationEnd => 55,
        SyntaxKind::ErrorToken => 56,
    }
}

/// The kind a number stands for, if any.
pub open spec fn spec_from_raw(raw: u16) -> Option<SyntaxKind> {
    match raw {
        0 => Some(SyntaxKind::Whitespace),
        1 => Some(SyntaxKind::LineComment),
        2 => Some(SyntaxKind::BlockComment),
        3 => Some(SyntaxKind::Ident),
        4 => Some(SyntaxKind::Integer),
        5 => Some(SyntaxKind::Float),
        6 => Some(SyntaxKind::RelativePath),
        7 => Some(SyntaxKind::AbsolutePath),
        8 => Some(SyntaxKind::HomePath),
        9 => Some(SyntaxKind::SearchPath),
        10 => Some(SyntaxKind::PathStart),
        11 => Some(SyntaxKind::PathContent),
        12 => Some(SyntaxKind::LParen),
        13 => Some(SyntaxKind::RParen),
        14 => Some(SyntaxKind::LBracket),
        15 => Some(SyntaxKind::RBracket),
        16 => Some(SyntaxKind::LBrace),
        17 => Some(SyntaxKind::RBrace),
        18 => Some(SyntaxKind::Comma),
        19 => Some(SyntaxKind::Plus),
        20 => Some(SyntaxKind::PlusPlus),
        21 => Some(SyntaxKind::Minus),
        22 => Some(SyntaxKind::Star),
        23 => Some(SyntaxKind::Slash),
        24 => Some(SyntaxKind::Bang),
        25 => Some(SyntaxKind::EqualEqual),
        26 => Some(SyntaxKind::NotEqual),
        27 => Some(SyntaxKind::Less),
        28 => Some(SyntaxKind::LessEqual),
        29 => Some(SyntaxKind::Greater),
        30 => Some(SyntaxKind::GreaterEqual),
        31 => Some(SyntaxKind::AndAnd),
        32 => Some(SyntaxKind::OrOr),
        33 => Some(SyntaxKind::Fn),
        34 => Some(SyntaxKind::Arrow),
        35 => Some(SyntaxKind::Question),
        36 => Some(SyntaxKind::Ellipsis),
        37 => Some(SyntaxKind::At),
        38 => Some(SyntaxKind::Dot),
        39 => Some(SyntaxKind::Assign),
        40 => Some(SyntaxKind::Semicolon),
        41 => Some(SyntaxKind::Rec),
        42 => Some(SyntaxKind::Inherit),
        43 => Some(SyntaxKind::Or),
        44 => Some(SyntaxKind::Let),
        45 => Some(SyntaxKind::Yield),
        46 => Some(SyntaxKind::With),
        47 => Some(SyntaxKind::Assert),
        48 => Some(SyntaxKind::If),
        49 => Some(SyntaxKind::Then),
        50 => Some(SyntaxKind::Else),
        51 => Some(SyntaxKind::StringStart),
        52 => Some(SyntaxKind::StringContent),
        53 => Some(SyntaxKind::StringEnd),
        54 => Some(SyntaxKind::InterpolationStart),
        55 => Some(SyntaxKind::InterpolationEnd),
        56 => Some(SyntaxKind::ErrorToken),
        _ => None,
    }
}

/// Numbering a kind and reading the number back gives the kind.
pub proof fn lemma_raw_roundtrip(k: SyntaxKind)
    ensures
        spec_from_raw(spec_to_raw(k)) == Some(k),
{
}

impl SyntaxKind {
    /// This kind's number in a syntax tree.
    pub fn to_raw(self) -> (r: u16)
        ensures
            r == spec_to_raw(self),
    {
        match self {
            SyntaxKind::Whitespace => 0,
            SyntaxKind::LineComment => 1,
            SyntaxKind::BlockComment => 2,
            SyntaxKind::Ident => 3,
            SyntaxKind::Integer => 4,
            SyntaxKind::Float => 5,
            SyntaxKind::RelativePath => 6,
            SyntaxKind::AbsolutePath => 7,
            SyntaxKind::HomePath => 8,
            SyntaxKind::SearchPath => 9,
            SyntaxKind::PathStart => 10,
            SyntaxKind::PathContent => 11,
            SyntaxKind::LParen => 12,
            SyntaxKind::RParen => 13,
            SyntaxKind::LBracket => 14,
            SyntaxKind::RBracket => 15,
            SyntaxKind::LBrace => 16,
            SyntaxKind::RBrace => 17,
            SyntaxKind::Comma => 18,
            SyntaxKind::Plus => 19,
            SyntaxKind::PlusPlus => 20,
            SyntaxKind::Minus => 21,
            SyntaxKind::Star => 22,
            SyntaxKind::Slash => 23,
            SyntaxKind::Bang => 24,
            SyntaxKind::EqualEqual => 25,
            SyntaxKind::NotEqual => 26,
            SyntaxKind::Less => 27,
            SyntaxKind::LessEqual => 28,
            SyntaxKind::Greater => 29,
            SyntaxKind::GreaterEqual => 30,
            SyntaxKind::AndAnd => 31,
            SyntaxKind::OrOr => 32,
            SyntaxKind::Fn => 33,
            SyntaxKind::Arrow => 34,
            SyntaxKind::Question => 35,
            SyntaxKind::Ellipsis => 36,
            SyntaxKind::At => 37,
            SyntaxKind::Dot => 38,
            SyntaxKind::Assign => 39,
            SyntaxKind::Semicolon => 40,
            SyntaxKind::Rec => 41,
            SyntaxKind::Inherit => 42,
            SyntaxKind::Or => 43,
            SyntaxKind::Let => 44,
            SyntaxKind::Yield => 45,
            SyntaxKind::With => 46,
            SyntaxKind::Assert => 47,
            SyntaxKind::If => 48,
            SyntaxKind::Then => 49,
            SyntaxKind::Else => 50,
            SyntaxKind::StringStart => 51,
            SyntaxKind::StringContent => 52,
            SyntaxKind::StringEnd => 53,
            SyntaxKind::InterpolationStart => 54,
            SyntaxKind::InterpolationEnd => 55,
            SyntaxKind::ErrorToken => 56,
        }
    }

    /// The kind numbered `raw`, if any.
    pub fn from_raw(raw: u16) -> (r: Option<SyntaxKind>)
        ensures
            r == spec_from_raw(raw),
    {
        match raw {
            0 => Some(SyntaxKind::Whitespace),
            1 => Some(SyntaxKind::LineComment),
            2 => Some(SyntaxKind::BlockComment),
            3 => Some(SyntaxKind::Ident),
            4 => Some(SyntaxKind::Integer),
            5 => Some(SyntaxKind::Float),
            6 => Some(SyntaxKind::RelativePath),
            7 => Some(SyntaxKind::AbsolutePath),
            8 => Some(SyntaxKind::HomePath),
            9 => Some(SyntaxKind::SearchPath),
            10 => Some(SyntaxKind::PathStart),
            11 => Some(SyntaxKind::PathContent),
            12 => Some(SyntaxKind::LParen),
            13 => Some(SyntaxKind::RParen),
            14 => Some(SyntaxKind::LBracket),
            15 => Some(SyntaxKind::RBracket),
            16 => Some(SyntaxKind::LBrace),
            17 => Some(SyntaxKind::RBrace),
            18 => Some(SyntaxKind::Comma),
            19 => Some(SyntaxKind::Plus),
            20 => Some(SyntaxKind::PlusPlus),
            21 => Some(SyntaxKind::Minus),
            22 => Some(SyntaxKind::Star),
            23 => Some(SyntaxKind::Slash),
            24 => Some(SyntaxKind::Bang),
            25 => Some(SyntaxKind::EqualEqual),
            26 => Some(SyntaxKind::NotEqual),
            27 => Some(SyntaxKind::Less),
            28 => Some(SyntaxKind::LessEqual),
            29 => Some(SyntaxKind::Greater),
            30 => Some(SyntaxKind::GreaterEqual),
            31 => Some(SyntaxKind::AndAnd),
            32 => Some(SyntaxKind::OrOr),
            33 => Some(SyntaxKind::Fn),
            34 => Some(SyntaxKind::Arrow),
            35 => Some(SyntaxKind::Question),
            36 => Some(SyntaxKind::Ellipsis),
            37 => Some(SyntaxKind::At),
            38 => Some(SyntaxKind::Dot),
            39 => Some(SyntaxKind::Assign),
            40 => Some(SyntaxKind::Semicolon),
            41 => Some(SyntaxKind::Rec),
            42 => Some(SyntaxKind::Inherit),
            43 => Some(SyntaxKind::Or),
            44 => Some(SyntaxKind::Let),
            45 => Some(SyntaxKind::Yield),
            46 => Some(SyntaxKind::With),
            47 => Some(SyntaxKind::Assert),
            48 => Some(SyntaxKind::If),
            49 => Some(SyntaxKind::Then),
            50 => Some(SyntaxKind::Else),
            51 => Some(SyntaxKind::StringStart),
            52 => Some(SyntaxKind::StringContent),
            53 => Some(SyntaxKind::StringEnd),
            54 => Some(SyntaxKind::InterpolationStart),
            55 => Some(SyntaxKind::InterpolationEnd),
            56 => Some(SyntaxKind::ErrorToken),
            _ => None,
        }
    }

    pub fn is_trivia(self) -> (r: bool)
        ensures
            r == spec_is_trivia(self),
    {
        match self {
            SyntaxKind::Whitespace | SyntaxKind::LineComment | SyntaxKind::BlockComment => true,
            _ => false,
        }
    }

    pub fn is_opening(self) -> (r: bool)
        ensures
            r == spec_is_opening(self),
    {
        match self {
            SyntaxKind::LParen
            | SyntaxKind::LBrace
            | SyntaxKind::LBracket
            | SyntaxKind::StringStart
            | SyntaxKind::InterpolationStart => true,
            _ => false,
        }
    }

    pub fn is_closing(self) -> (r: bool)
        ensures
            r == spec_is_closing(self),
    {
        match self {
            SyntaxKind::RParen
            | SyntaxKind::RBrace
            | SyntaxKind::RBracket
            | SyntaxKind::StringEnd
            | SyntaxKind::InterpolationEnd => true,
            _ => false,
        }
    }
}

} // verus!
