use c0front::{lex_tokens, Lexer, Token};

fn lex(text: &str) -> Vec<Token> {
    lex_tokens(text.chars().collect()).into_iter().collect()
}

fn ident(text: &str) -> Vec<Token> {
    text.chars().map(|c| Token::Undefined(Some(c))).collect()
}

#[test]
fn shift_operators_take_the_longest_spelling() {
    assert_eq!(lex("<<"), vec![Token::LShift]);
    assert_eq!(lex("<<="), vec![Token::LShiftEq]);
    assert_eq!(lex(">>"), vec![Token::RShift]);
    assert_eq!(lex(">>="), vec![Token::RShiftEq]);
    assert_eq!(lex("->"), vec![Token::FieldDeref]);
}

#[test]
fn lookahead_leaves_unused_characters_in_place() {
    assert_eq!(lex("<<x"), vec![Token::LShift, Token::Undefined(Some('x'))]);
    assert_eq!(lex("-x"), vec![Token::Minus, Token::Undefined(Some('x'))]);
    assert_eq!(lex("= ="), vec![Token::Equal, Token::Equal]);
    assert_eq!(lex("<<<"), vec![Token::LShift, Token::Lt]);
    assert_eq!(lex("&&="), vec![Token::BooleanAnd, Token::Equal]);
    assert_eq!(lex("a->b"), vec![
        Token::Undefined(Some('a')),
        Token::FieldDeref,
        Token::Undefined(Some('b')),
    ]);
}

#[test]
fn keyword_needs_a_word_boundary() {
    assert_eq!(lex("intx"), ident("intx"));
    assert_eq!(lex("int x"), vec![Token::Int, Token::Undefined(Some('x'))]);
    assert_eq!(lex("xint"), ident("xint"));
    assert_eq!(lex("int*"), vec![Token::Int, Token::Mult]);
    assert_eq!(lex("if(x)"), vec![
        Token::If,
        Token::LParen,
        Token::Undefined(Some('x')),
        Token::RParen,
    ]);
}

#[test]
fn every_keyword_is_recognised() {
    let cases: Vec<(&str, Token)> = vec![
        ("int", Token::Int),
        ("bool", Token::Bool),
        ("char", Token::Char),
        ("string", Token::String),
        ("void", Token::Void),
        ("struct", Token::Struct),
        ("if", Token::If),
        ("else", Token::Else),
        ("while", Token::While),
        ("for", Token::For),
        ("return", Token::Return),
        ("assert", Token::Assert),
        ("error", Token::Error),
        ("alloc", Token::Alloc),
        ("alloc_array", Token::AllocArray),
        ("typedef", Token::Typedef),
        ("break", Token::Break),
        ("continue", Token::Continue),
        ("#use", Token::Use),
        ("true", Token::True),
        ("false", Token::False),
        ("NULL", Token::Null),
    ];
    for (text, t) in cases {
        assert_eq!(lex(text), vec![t], "{}", text);
    }
    assert_eq!(lex("alloc_arrays"), ident("alloc_arrays"));
    assert_eq!(lex("allocx"), ident("allocx"));
}

#[test]
fn eleven_nines_clamp_without_panic() {
    let r = lex("99999999999");
    assert_eq!(r, vec![Token::Num(999999999)]);
    match r[0] {
        Token::Num(n) => assert!(n <= u32::MAX),
        _ => panic!("not a number"),
    }
}

#[test]
fn numbers_accumulate_and_clamp() {
    assert_eq!(lex("0"), vec![Token::Num(0)]);
    assert_eq!(lex("1234"), vec![Token::Num(1234)]);
    assert_eq!(lex("4294967295"), vec![Token::Num(4294967295)]);
    assert_eq!(lex("4294967296"), vec![Token::Num(u32::MAX)]);
    assert_eq!(lex("42949672950"), vec![Token::Num(u32::MAX)]);
    assert_eq!(lex("12a"), vec![Token::Num(12), Token::Undefined(Some('a'))]);
}

#[test]
fn whitespace_is_skipped() {
    assert_eq!(lex(""), vec![]);
    assert_eq!(lex(" \n\t "), vec![]);
    assert_eq!(lex("\r"), vec![Token::Undefined(Some('\r'))]);
    assert_eq!(lex("a\r\nb"), vec![
        Token::Undefined(Some('a')),
        Token::Undefined(Some('\r')),
        Token::Undefined(Some('b')),
    ]);
    assert_eq!(lex(" ( \n ) "), vec![Token::LParen, Token::RParen]);
}

#[test]
fn unknown_characters_become_placeholders() {
    assert_eq!(lex("@$"), vec![Token::Undefined(Some('@')), Token::Undefined(Some('$'))]);
}

#[test]
fn lexer_hands_out_tokens_one_at_a_time() {
    let mut lexer = Lexer::new("a <= 7".chars().collect());
    assert_eq!(lexer.next(), Some(Token::Undefined(Some('a'))));
    assert_eq!(lexer.next(), Some(Token::Lte));
    assert_eq!(lexer.next(), Some(Token::Num(7)));
    assert_eq!(lexer.next(), None);
    assert_eq!(lexer.next(), None);
    let mut empty = Lexer::empty();
    assert_eq!(empty.next(), None);
    let rest: Vec<Token> = Lexer::new("x ; y".chars().collect()).tokens().into_iter().collect();
    assert_eq!(rest, vec![
        Token::Undefined(Some('x')),
        Token::SemiColon,
        Token::Undefined(Some('y')),
    ]);
}

#[test]
fn symbols_round_trip_through_their_spelling() {
    let symbols = vec![
        Token::Comma, Token::LCurly, Token::RCurly, Token::Equal, Token::Equality,
        Token::And, Token::AndEq, Token::Xor, Token::XorEq, Token::Or, Token::OrEq,
        Token::Mult, Token::MultEq, Token::Not, Token::BooleanNot, Token::BitNot,
        Token::BitNotEq, Token::Mod, Token::ModEq, Token::Div, Token::DivEq, Token::Plus,
        Token::PlusEq, Token::PostPlusEq, Token::Minus, Token::MinusEq, Token::PostMinusEq,
        Token::Gt, Token::Lt, Token::Gte, Token::Lte, Token::NotEq, Token::LShift,
        Token::LShiftEq, Token::RShift, Token::RShiftEq, Token::LBracket, Token::RBracket,
        Token::LParen, Token::RParen, Token::BooleanAnd, Token::BooleanOr,
        Token::FieldSelect, Token::FieldDeref, Token::TernIf, Token::TernElse,
        Token::QuoteMark, Token::DQuoteMark, Token::SemiColon,
    ];
    for t in symbols {
        let spelling = t.spelling().expect("a symbol has a spelling");
        let back: Vec<Token> = lex_tokens(spelling.clone()).into_iter().collect();
        assert_eq!(back, vec![t]);
        let again: Vec<char> = back.iter().flat_map(|b| b.spelling().unwrap()).collect();
        assert_eq!(again, spelling);
    }
}

#[test]
fn spelling_of_tokens() {
    assert_eq!(Token::LShiftEq.spelling(), Some(vec!['<', '<', '=']));
    assert_eq!(Token::AllocArray.spelling(), Some("alloc_array".chars().collect()));
    assert_eq!(Token::Undefined(Some('q')).spelling(), Some(vec!['q']));
    assert_eq!(Token::PointerDeref.spelling(), Some(vec!['*']));
    assert_eq!(Token::Num(3).spelling(), None);
    assert_eq!(Token::Undefined(None).spelling(), None);
}

#[test]
fn alloc_array_extends_alloc() {
    assert_eq!(lex("alloc_array"), vec![Token::AllocArray]);
    assert_eq!(lex("alloc_array("), vec![Token::AllocArray, Token::LParen]);
    assert_eq!(lex("alloc("), vec![Token::Alloc, Token::LParen]);
    assert_eq!(lex("alloc_arr"), ident("alloc_arr"));
    assert_eq!(lex("alloc_arrayx"), ident("alloc_arrayx"));
    assert_eq!(lex("assert alloc"), vec![Token::Assert, Token::Alloc]);
}
