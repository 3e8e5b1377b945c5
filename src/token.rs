//! Lexical symbols and their literal spellings.
use vstd::prelude::*;

verus! {

/// A lexical symbol.
///
/// `Undefined(Some(c))` carries a character that forms no symbol of its own
/// (most often one character of an identifier); `Undefined(None)` is the
/// pattern that any such token matches.
#[derive(Clone, Copy, Debug, PartialEq, Eq, Hash, Structural)]
pub enum Token {
    Undefined(Option<char>),
    Comma,
    LCurly,
    RCurly,
    Equal,
    Equality,
    And,
    AndEq,
    Xor,
    XorEq,
    Or,
    OrEq,
    Mult,
    MultEq,
    Not,
    BooleanNot,
    BitNot,
    BitNotEq,
    Mod,
    ModEq,
    Div,
    DivEq,
    Plus,
    PlusEq,
    PostPlusEq,
    Minus,
    MinusEq,
    PostMinusEq,
    Gt,
    Lt,
    Gte,
    Lte,
    NotEq,
    LShift,
    LShiftEq,
    RShift,
    RShiftEq,
    LBracket,
    RBracket,
    LParen,
    RParen,
    BooleanAnd,
    BooleanOr,
    Num(u32),
    FieldSelect,
    FieldDeref,
    TernIf,
    TernElse,
    QuoteMark,
    DQuoteMark,
    PointerDeref,
    Int,
    Bool,
    Char,
    String,
    Void,
    Struct,
    If,
    Else,
    While,
    For,
    Return,
    Assert,
    Error,
    Alloc,
    AllocArray,
    Typedef,
    Break,
    Continue,
    SemiColon,
    Use,
    True,
    False,
    Null,
}

/// The characters that spell `t` in source text; empty for a number and for
/// the identifier pattern `Undefined(None)`, which have no fixed spelling.
pub open spec fn spelled(t: Token) -> Seq<char> {
    match t {
        Token::Undefined(Some(c)) => seq![c],
        Token::Undefined(None) => Seq::empty(),
        Token::Num(_) => Seq::empty(),
        Token::PointerDeref => seq!['*'],
        Token::Comma => seq![','],
        Token::LCurly => seq!['{'],
        Token::RCurly => seq!['}'],
        Token::Equal => seq!['='],
        Token::Equality => seq!['=', '='],
        Token::And => seq!['&'],
        Token::AndEq => seq!['&', '='],
        Token::Xor => seq!['^'],
        Token::XorEq => seq!['^', '='],
        Token::Or => seq!['|'],
        Token::OrEq => seq!['|', '='],
        Token::Mult => seq!['*'],
        Token::MultEq => seq!['*', '='],
        Token::Not => seq!['!'],
        Token::BooleanNot => seq!['!', '!'],
        Token::BitNot => seq!['~'],
        Token::BitNotEq => seq!['~', '='],
        Token::Mod => seq!['%'],
        Token::ModEq => seq!['%', '='],
        Token::Div => seq!['/'],
        Token::DivEq => seq!['/', '='],
        Token::Plus => seq!['+'],
        Token::PlusEq => seq!['+', '='],
        Token::PostPlusEq => seq!['+', '+'],
        Token::Minus => seq!['-'],
        Token::MinusEq => seq!['-', '='],
        Token::PostMinusEq => seq!['-', '-'],
        Token::Gt => seq!['>'],
        Token::Lt => seq!['<'],
        Token::Gte => seq!['>', '='],
        Token::Lte => seq!['<', '='],
        Token::NotEq => seq!['!', '='],
        Token::LShift => seq!['<', '<'],
        Token::LShiftEq => seq!['<', '<', '='],
        Token::RShift => seq!['>', '>'],
        Token::RShiftEq => seq!['>', '>', '='],
        Token::LBracket => seq!['['],
        Token::RBracket => seq![']'],
        Token::LParen => seq!['('],
        Token::RParen => seq![')'],
        Token::BooleanAnd => seq!['&', '&'],
        Token::BooleanOr => seq!['|', '|'],
        Token::FieldSelect => seq!['.'],
        Token::FieldDeref => seq!['-', '>'],
        Token::TernIf => seq!['?'],
        Token::TernElse => seq![':'],
        Token::QuoteMark => seq!['\''],
        Token::DQuoteMark => seq!['"'],
        Token::SemiColon => seq![';'],
        Token::Int => seq!['i', 'n', 't'],
        Token::Bool => seq!['b', 'o', 'o', 'l'],
        Token::Char => seq!['c', 'h', 'a', 'r'],
        Token::String => seq!['s', 't', 'r', 'i', 'n', 'g'],
        Token::Void => seq!['v', 'o', 'i', 'd'],
        Token::Struct => seq!['s', 't', 'r', 'u', 'c', 't'],
        Token::If => seq!['i', 'f'],
        Token::Else => seq!['e', 'l', 's', 'e'],
        Token::While => seq!['w', 'h', 'i', 'l', 'e'],
        Token::For => seq!['f', 'o', 'r'],
        Token::Return => seq!['r', 'e', 't', 'u', 'r', 'n'],
        Token::Assert => seq!['a', 's', 's', 'e', 'r', 't'],
        Token::Error => seq!['e', 'r', 'r', 'o', 'r'],
        Token::Alloc => seq!['a', 'l', 'l', 'o', 'c'],
        Token::AllocArray => seq!['a', 'l', 'l', 'o', 'c', '_', 'a', 'r', 'r', 'a', 'y'],
        Token::Typedef => seq!['t', 'y', 'p', 'e', 'd', 'e', 'f'],
        Token::Break => seq!['b', 'r', 'e', 'a', 'k'],
        Token::Continue => seq!['c', 'o', 'n', 't', 'i', 'n', 'u', 'e'],
        Token::Use => seq!['#', 'u', 's', 'e'],
        Token::True => seq!['t', 'r', 'u', 'e'],
        Token::False => seq!['f', 'a', 'l', 's', 'e'],
        Token::Null => seq!['N', 'U', 'L', 'L'],
    }
}

/// Operators and separators: the tokens that the tokenizer reads from a
/// fixed spelling of one to three punctuation characters.
pub open spec fn is_symbol(t: Token) -> bool {
    match t {
        Token::Comma
        | Token::LCurly
        | Token::RCurly
        | Token::Equal
        | Token::Equality
        | Token::And
        | Token::AndEq
        | Token::Xor
        | Token::XorEq
        | Token::Or
        | Token::OrEq
        | Token::Mult
        | Token::MultEq
        | Token::Not
        | Token::BooleanNot
        | Token::BitNot
        | Token::BitNotEq
        | Token::Mod
        | Token::ModEq
        | Token::Div
        | Token::DivEq
        | Token::Plus
        | Token::PlusEq
        | Token::PostPlusEq
        | Token::Minus
        | Token::MinusEq
        | Token::PostMinusEq
        | Token::Gt
        | Token::Lt
        | Token::Gte
        | Token::Lte
        | Token::NotEq
        | Token::LShift
        | Token::LShiftEq
        | Token::RShift
        | Token::RShiftEq
        | Token::LBracket
        | Token::RBracket
        | Token::LParen
        | Token::RParen
        | Token::BooleanAnd
        | Token::BooleanOr
        | Token::FieldSelect
        | Token::FieldDeref
        | Token::TernIf
        | Token::TernElse
        | Token::QuoteMark
        | Token::DQuoteMark
        | Token::SemiColon => true,
        _ => false,
    }
}

/// Keywords: primitive types, control words and the literals `true`,
/// `false` and `NULL`.
pub open spec fn is_keyword(t: Token) -> bool {
    match t {
        Token::Int
        | Token::Bool
        | Token::Char
        | Token::String
        | Token::Void
        | Token::Struct
        | Token::If
        | Token::Else
        | Token::While
        | Token::For
        | Token::Return
        | Token::Assert
        | Token::Error
        | Token::Alloc
        | Token::AllocArray
        | Token::Typedef
        | Token::Break
        | Token::Continue
        | Token::Use
        | Token::True
        | Token::False
        | Token::Null => true,
        _ => false,
    }
}

impl Token {
    /// The characters that spell this token, for every token that has a fixed
    /// spelling.
    pub fn spelling(&self) -> (r: Option<Vec<char>>)
        ensures
            match r {
                Some(v) => v@ == spelled(*self),
                None => self is Num || *self == Token::Undefined(None),
            },
    {
        match *self {
            Token::Undefined(Some(c)) => Some(vec![c]),
            Token::Undefined(None) => None,
            Token::Num(_) => None,
            Token::PointerDeref => Some(vec!['*']),
            Token::Comma => Some(vec![',']),
            Token::LCurly => Some(vec!['{']),
            Token::RCurly => Some(vec!['}']),
            Token::Equal => Some(vec!['=']),
            Token::Equality => Some(vec!['=', '=']),
            Token::And => Some(vec!['&']),
            Token::AndEq => Some(vec!['&', '=']),
            Token::Xor => Some(vec!['^']),
            Token::XorEq => Some(vec!['^', '=']),
            Token::Or => Some(vec!['|']),
            Token::OrEq => Some(vec!['|', '=']),
            Token::Mult => Some(vec!['*']),
            Token::MultEq => Some(vec!['*', '=']),
            Token::Not => Some(vec!['!']),
            Token::BooleanNot => Some(vec!['!', '!']),
            Token::BitNot => Some(vec!['~']),
            Token::BitNotEq => Some(vec!['~', '=']),
            Token::Mod => Some(vec!['%']),
            Token::ModEq => Some(vec!['%', '=']),
            Token::Div => Some(vec!['/']),
            Token::DivEq => Some(vec!['/', '=']),
            Token::Plus => Some(vec!['+']),
            Token::PlusEq => Some(vec!['+', '=']),
            Token::PostPlusEq => Some(vec!['+', '+']),
            Token::Minus => Some(vec!['-']),
            Token::MinusEq => Some(vec!['-', '=']),
            Token::PostMinusEq => Some(vec!['-', '-']),
            Token::Gt => Some(vec!['>']),
            Token::Lt => Some(vec!['<']),
            Token::Gte => Some(vec!['>', '=']),
            Token::Lte => Some(vec!['<', '=']),
            Token::NotEq => Some(vec!['!', '=']),
            Token::LShift => Some(vec!['<', '<']),
            Token::LShiftEq => Some(vec!['<', '<', '=']),
            Token::RShift => Some(vec!['>', '>']),
            Token::RShiftEq => Some(vec!['>', '>', '=']),
            Token::LBracket => Some(vec!['[']),
            Token::RBracket => Some(vec![']']),
            Token::LParen => Some(vec!['(']),
            Token::RParen => Some(vec![')']),
            Token::BooleanAnd => Some(vec!['&', '&']),
            Token::BooleanOr => Some(vec!['|', '|']),
            Token::FieldSelect => Some(vec!['.']),
            Token::FieldDeref => Some(vec!['-', '>']),
            Token::TernIf => Some(vec!['?']),
            Token::TernElse => Some(vec![':']),
            Token::QuoteMark => Some(vec!['\'']),
            Token::DQuoteMark => Some(vec!['"']),
            Token::SemiColon => Some(vec![';']),
            Token::Int => Some(vec!['i', 'n', 't']),
            Token::Bool => Some(vec!['b', 'o', 'o', 'l']),
            Token::Char => Some(vec!['c', 'h', 'a', 'r']),
            Token::String => Some(vec!['s', 't', 'r', 'i', 'n', 'g']),
            Token::Void => Some(vec!['v', 'o', 'i', 'd']),
            Token::Struct => Some(vec!['s', 't', 'r', 'u', 'c', 't']),
            Token::If => Some(vec!['i', 'f']),
            Token::Else => Some(vec!['e', 'l', 's', 'e']),
            Token::While => Some(vec!['w', 'h', 'i', 'l', 'e']),
            Token::For => Some(vec!['f', 'o', 'r']),
            Token::Return => Some(vec!['r', 'e', 't', 'u', 'r', 'n']),
            Token::Assert => Some(vec!['a', 's', 's', 'e', 'r', 't']),
            Token::Error => Some(vec!['e', 'r', 'r', 'o', 'r']),
            Token::Alloc => Some(vec!['a', 'l', 'l', 'o', 'c']),
            Token::AllocArray => Some(vec!['a', 'l', 'l', 'o', 'c', '_', 'a', 'r', 'r', 'a', 'y']),
            Token::Typedef => Some(vec!['t', 'y', 'p', 'e', 'd', 'e', 'f']),
            Token::Break => Some(vec!['b', 'r', 'e', 'a', 'k']),
            Token::Continue => Some(vec!['c', 'o', 'n', 't', 'i', 'n', 'u', 'e']),
            Token::Use => Some(vec!['#', 'u', 's', 'e']),
            Token::True => Some(vec!['t', 'r', 'u', 'e']),
            Token::False => Some(vec!['f', 'a', 'l', 's', 'e']),
            Token::Null => Some(vec!['N', 'U', 'L', 'L']),
        }
    }
}

} // verus!
