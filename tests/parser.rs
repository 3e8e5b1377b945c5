use c0front::{Element, Fragment, ParseError, Parser, Token};

fn parser_for(text: &str) -> Parser {
    Parser::new(text.chars().collect())
}

fn vec_check<T: PartialEq + std::fmt::Debug>(v1: Vec<T>, v2: Vec<T>) {
    assert_eq!(v1.len(), v2.len());
    for (a, b) in v1.into_iter().zip(v2) {
        assert_eq!(a, b);
    }
}

#[test]
fn parsingLexicalTokens() {
    let mut parser = parser_for(
        "va 1234 ( ) [ ] { } , ; ! ~ * - . -> / % + << >> < <= >= > == != & ^ | && || ? : \
         = += -= *= /= %= <<= >>= &= ^= |= -- ++",
    );
    let expected_result: Vec<Result<Fragment, ParseError>> = vec![
        Ok(Fragment::Id(vec![Token::Undefined(Some('v')), Token::Undefined(Some('a'))])),
        Ok(Fragment::Num(1234)),
        Ok(Fragment::Sep(Token::LParen)),
        Ok(Fragment::Sep(Token::RParen)),
        Ok(Fragment::Sep(Token::LBracket)),
        Ok(Fragment::Sep(Token::RBracket)),
        Ok(Fragment::Sep(Token::LCurly)),
        Ok(Fragment::Sep(Token::RCurly)),
        Ok(Fragment::Sep(Token::Comma)),
        Ok(Fragment::Sep(Token::SemiColon)),
        Ok(Fragment::Unop(Token::Not)),
        Ok(Fragment::Unop(Token::BitNot)),
        Ok(Fragment::Unop(Token::PointerDeref)),
        Ok(Fragment::Unop(Token::Minus)),
        Ok(Fragment::Binop(Token::FieldSelect)),
        Ok(Fragment::Binop(Token::FieldDeref)),
        Ok(Fragment::Binop(Token::Div)),
        Ok(Fragment::Binop(Token::Mod)),
        Ok(Fragment::Binop(Token::Plus)),
        Ok(Fragment::Binop(Token::LShift)),
        Ok(Fragment::Binop(Token::RShift)),
        Ok(Fragment::Binop(Token::Lt)),
        Ok(Fragment::Binop(Token::Lte)),
        Ok(Fragment::Binop(Token::Gte)),
        Ok(Fragment::Binop(Token::Gt)),
        Ok(Fragment::Binop(Token::Equality)),
        Ok(Fragment::Binop(Token::NotEq)),
        Ok(Fragment::Binop(Token::And)),
        Ok(Fragment::Binop(Token::Xor)),
        Ok(Fragment::Binop(Token::Or)),
        Ok(Fragment::Binop(Token::BooleanAnd)),
        Ok(Fragment::Binop(Token::BooleanOr)),
        Ok(Fragment::Binop(Token::TernIf)),
        Ok(Fragment::Binop(Token::TernElse)),
        Ok(Fragment::Asnop(Token::Equal)),
        Ok(Fragment::Asnop(Token::PlusEq)),
        Ok(Fragment::Asnop(Token::MinusEq)),
        Ok(Fragment::Asnop(Token::MultEq)),
        Ok(Fragment::Asnop(Token::DivEq)),
        Ok(Fragment::Asnop(Token::ModEq)),
        Ok(Fragment::Asnop(Token::LShiftEq)),
        Ok(Fragment::Asnop(Token::RShiftEq)),
        Ok(Fragment::Asnop(Token::AndEq)),
        Ok(Fragment::Asnop(Token::XorEq)),
        Ok(Fragment::Asnop(Token::OrEq)),
        Ok(Fragment::Postop(Token::PostMinusEq)),
        Ok(Fragment::Postop(Token::PostPlusEq)),
    ];
    let mut results: Vec<Result<Fragment, ParseError>> = Vec::new();
    loop {
        if let Ok(exp) = parser.parseId() {
            results.push(Ok(exp));
            continue;
        }
        if let Ok(exp) = parser.parseNum() {
            results.push(Ok(exp));
            continue;
        }
        if let Ok(exp) = parser.parseSep() {
            results.push(Ok(exp));
            continue;
        }
        if let Ok(exp) = parser.parseUnop() {
            results.push(Ok(exp));
            continue;
        }
        if let Ok(exp) = parser.parseBinop() {
            results.push(Ok(exp));
            continue;
        }
        if let Ok(exp) = parser.parseAsnop() {
            results.push(Ok(exp));
            continue;
        }
        if let Ok(exp) = parser.parsePostop() {
            results.push(Ok(exp));
            continue;
        }
        break;
    }
    vec_check(expected_result, results);
}

#[test]
fn parsingTp() {
    let mut parser = parser_for("int char bool string void struct i* i**");
    let expected_result: Vec<Result<Fragment, ParseError>> = vec![
        Ok(Fragment::Tp(vec![Element::Terminal(Token::Int)])),
        Ok(Fragment::Tp(vec![Element::Terminal(Token::Char)])),
        Ok(Fragment::Tp(vec![Element::Terminal(Token::Bool)])),
        Ok(Fragment::Tp(vec![Element::Terminal(Token::String)])),
        Ok(Fragment::Tp(vec![Element::Terminal(Token::Void)])),
        Ok(Fragment::Tp(vec![
            Element::Terminal(Token::Struct),
            Element::Node(Fragment::Id(vec![Token::Undefined(Some('i'))])),
            Element::Terminal(Token::PointerDeref),
        ])),
        Ok(Fragment::Tp(vec![
            Element::Node(Fragment::Id(vec![Token::Undefined(Some('i'))])),
            Element::Terminal(Token::PointerDeref),
            Element::Terminal(Token::PointerDeref),
        ])),
    ];
    let mut results = Vec::new();
    while let Ok(exp) = parser.parseTp() {
        results.push(Ok(exp));
    }
    vec_check(results, expected_result);
}
