use c0front::{Element, Fragment, ParseError, Parser, Production, SyntaxError, Token};

fn parser_for(text: &str) -> Parser {
    Parser::new(text.chars().collect())
}

fn id(text: &str) -> Element {
    Element::Node(Fragment::Id(text.chars().map(|c| Token::Undefined(Some(c))).collect()))
}

fn t(tok: Token) -> Element {
    Element::Terminal(tok)
}

fn syntax(production: Production, found: Option<Token>, position: usize) -> ParseError {
    ParseError::Syntax(SyntaxError { production, found, position })
}

#[test]
fn pointer_types_chain() {
    assert_eq!(
        parser_for("int**").parseTp(),
        Ok(Fragment::Tp(vec![t(Token::Int), t(Token::PointerDeref), t(Token::PointerDeref)]))
    );
    assert_eq!(
        parser_for("struct foo*").parseTp(),
        Ok(Fragment::Tp(vec![t(Token::Struct), id("foo"), t(Token::PointerDeref)]))
    );
    assert_eq!(
        parser_for("bool[][]").parseTp(),
        Ok(Fragment::Tp(vec![
            t(Token::Bool),
            t(Token::LBracket),
            t(Token::RBracket),
            t(Token::LBracket),
            t(Token::RBracket),
        ]))
    );
    assert_eq!(
        parser_for("struct foo*[]").parseTp(),
        Ok(Fragment::Tp(vec![
            t(Token::Struct),
            id("foo"),
            t(Token::PointerDeref),
            t(Token::LBracket),
            t(Token::RBracket),
        ]))
    );
}

#[test]
fn long_pointer_chain_terminates() {
    let text = format!("char{}", "*".repeat(5000));
    let mut expected = vec![t(Token::Char)];
    expected.extend((0..5000).map(|_| t(Token::PointerDeref)));
    let mut parser = parser_for(&text);
    assert_eq!(parser.parseTp(), Ok(Fragment::Tp(expected)));
    assert_eq!(parser.parseTp(), Err(ParseError::NoMatch));
}

#[test]
fn type_errors() {
    assert_eq!(parser_for("struct").parseTp(), Err(syntax(Production::StructType, None, 1)));
    assert_eq!(
        parser_for("struct *").parseTp(),
        Err(syntax(Production::StructType, Some(Token::Mult), 1))
    );
    assert_eq!(
        parser_for("int[x]").parseTp(),
        Err(syntax(Production::ArrayType, Some(Token::Undefined(Some('x'))), 2))
    );
    assert_eq!(parser_for("1").parseTp(), Err(ParseError::NoMatch));
}

#[test]
fn binary_chain_is_flat() {
    assert_eq!(
        parser_for("a+b*c").parseExp(),
        Ok(Fragment::Expr(vec![id("a"), t(Token::Plus), id("b"), t(Token::Mult), id("c")]))
    );
}

#[test]
fn unmatched_index_bracket_is_an_error() {
    assert_eq!(parser_for("a[").parseExp(), Err(syntax(Production::Index, None, 2)));
    assert_eq!(
        parser_for("a[1;").parseExp(),
        Err(syntax(Production::Index, Some(Token::SemiColon), 3))
    );
}

#[test]
fn expression_forms() {
    assert_eq!(
        parser_for("f(a, 2)").parseExp(),
        Ok(Fragment::Expr(vec![
            id("f"),
            t(Token::LParen),
            id("a"),
            t(Token::Comma),
            Element::Node(Fragment::Num(2)),
            t(Token::RParen),
        ]))
    );
    assert_eq!(
        parser_for("g()").parseExp(),
        Ok(Fragment::Expr(vec![id("g"), t(Token::LParen), t(Token::RParen)]))
    );
    assert_eq!(
        parser_for("x ? y : z").parseExp(),
        Ok(Fragment::Expr(vec![
            id("x"),
            t(Token::TernIf),
            id("y"),
            t(Token::TernElse),
            id("z"),
        ]))
    );
    assert_eq!(
        parser_for("p->q.r").parseExp(),
        Ok(Fragment::Expr(vec![
            id("p"),
            t(Token::FieldDeref),
            id("q"),
            t(Token::FieldSelect),
            id("r"),
        ]))
    );
    assert_eq!(
        parser_for("-*p").parseExp(),
        Ok(Fragment::Expr(vec![
            Element::Node(Fragment::Unop(Token::Minus)),
            Element::Node(Fragment::Unop(Token::PointerDeref)),
            id("p"),
        ]))
    );
    assert_eq!(
        parser_for("(a+b)[0]").parseExp(),
        Ok(Fragment::Expr(vec![
            t(Token::LParen),
            id("a"),
            t(Token::Plus),
            id("b"),
            t(Token::RParen),
            t(Token::LBracket),
            Element::Node(Fragment::Num(0)),
            t(Token::RBracket),
        ]))
    );
    assert_eq!(
        parser_for("true || NULL").parseExp(),
        Ok(Fragment::Expr(vec![t(Token::True), t(Token::BooleanOr), t(Token::Null)]))
    );
    assert_eq!(
        parser_for("alloc(int)").parseExp(),
        Ok(Fragment::Expr(vec![
            t(Token::Alloc),
            t(Token::LParen),
            Element::Node(Fragment::Tp(vec![t(Token::Int)])),
            t(Token::RParen),
        ]))
    );
    assert_eq!(
        parser_for("alloc_array(char*, n)").parseExp(),
        Ok(Fragment::Expr(vec![
            t(Token::AllocArray),
            t(Token::LParen),
            Element::Node(Fragment::Tp(vec![t(Token::Char), t(Token::PointerDeref)])),
            t(Token::Comma),
            id("n"),
            t(Token::RParen),
        ]))
    );
}

#[test]
fn expression_stops_before_what_does_not_extend_it() {
    let mut parser = parser_for("a = b;");
    assert_eq!(parser.parseExp(), Ok(Fragment::Expr(vec![id("a")])));
    assert_eq!(parser.parseAsnop(), Ok(Fragment::Asnop(Token::Equal)));
    assert_eq!(parser.parseExp(), Ok(Fragment::Expr(vec![id("b")])));
    assert_eq!(parser.parseSep(), Ok(Fragment::Sep(Token::SemiColon)));
    assert_eq!(parser.parseExp(), Err(ParseError::NoMatch));
}

#[test]
fn every_expression_error() {
    let cases: Vec<(&str, ParseError)> = vec![
        ("(a", syntax(Production::Parenthesised, None, 2)),
        ("()", syntax(Production::Parenthesised, Some(Token::RParen), 1)),
        ("f(a,)", syntax(Production::Call, Some(Token::RParen), 4)),
        ("f(a", syntax(Production::Call, None, 3)),
        ("-", syntax(Production::UnaryOperand, None, 1)),
        ("a+", syntax(Production::BinaryOperand, None, 2)),
        ("a?b", syntax(Production::Ternary, None, 3)),
        ("a?:b", syntax(Production::Ternary, Some(Token::TernElse), 2)),
        ("a?b:", syntax(Production::Ternary, None, 4)),
        ("a.", syntax(Production::FieldAccess, None, 2)),
        ("a[]", syntax(Production::Index, Some(Token::RBracket), 2)),
        ("alloc int", syntax(Production::Alloc, Some(Token::Int), 1)),
        ("alloc(1)", syntax(Production::Alloc, Some(Token::Num(1)), 2)),
        ("alloc(int", syntax(Production::Alloc, None, 3)),
        ("alloc_array(int)", syntax(Production::AllocArray, Some(Token::RParen), 3)),
        ("alloc_array(int,)", syntax(Production::AllocArray, Some(Token::RParen), 4)),
        ("alloc_array(int,n", syntax(Production::AllocArray, None, 5)),
        ("alloc_array(struct)", syntax(Production::StructType, Some(Token::RParen), 3)),
    ];
    for (text, err) in cases {
        assert_eq!(parser_for(text).parseExp(), Err(err), "{}", text);
    }
}

#[test]
fn nested_errors_propagate() {
    assert_eq!(parser_for("f(a[)").parseExp(), Err(syntax(Production::Index, Some(Token::RParen), 4)));
}

#[test]
fn eat_matches_by_class() {
    let mut parser = parser_for("xy 5 ;");
    assert_eq!(parser.eat(Token::Num(0)), Err(()));
    assert_eq!(parser.eat(Token::Undefined(None)), Ok(Token::Undefined(Some('x'))));
    assert_eq!(parser.eat(Token::Undefined(Some('q'))), Ok(Token::Undefined(Some('y'))));
    assert_eq!(parser.eat(Token::Num(0)), Ok(Token::Num(5)));
    assert_eq!(parser.eat(Token::Comma), Err(()));
    assert_eq!(parser.eat(Token::SemiColon), Ok(Token::SemiColon));
    assert_eq!(parser.eat(Token::SemiColon), Err(()));
}

#[test]
fn keyword_rule() {
    let mut parser = parser_for("while x");
    assert_eq!(parser.parseKeyword(), Ok(Fragment::Keyword(Token::While)));
    assert_eq!(parser.parseKeyword(), Err(ParseError::NoMatch));
    assert_eq!(parser.parseId(), Ok(Fragment::Id(vec![Token::Undefined(Some('x'))])));
}

#[test]
fn identifier_run_includes_keyword_prefix() {
    assert_eq!(
        parser_for("intx").parseId(),
        Ok(Fragment::Id(vec![
            Token::Undefined(Some('i')),
            Token::Undefined(Some('n')),
            Token::Undefined(Some('t')),
            Token::Undefined(Some('x')),
        ]))
    );
}

#[test]
fn merge_identity_and_splicing() {
    let num = || Fragment::Num(4);
    assert_eq!(Fragment::Empty.merge(num()), num());
    assert_eq!(num().merge(Fragment::Empty), num());
    assert_eq!(
        Fragment::Expr(vec![t(Token::Plus)]).merge(Fragment::Expr(vec![t(Token::Minus)])),
        Fragment::Expr(vec![t(Token::Plus), t(Token::Minus)])
    );
    assert_eq!(
        Fragment::Tp(vec![t(Token::Int)]).merge(num()),
        Fragment::Tp(vec![t(Token::Int), Element::Node(num())])
    );
    assert_eq!(
        Fragment::Expr(vec![]).merge(Fragment::Tp(vec![t(Token::Int)])),
        Fragment::Expr(vec![Element::Node(Fragment::Tp(vec![t(Token::Int)]))])
    );
    assert_eq!(
        Fragment::Tp(vec![]).push_terminal(Token::Struct),
        Fragment::Tp(vec![t(Token::Struct)])
    );
}

#[test]
fn merge_is_associative_on_same_kind() {
    let a = || Fragment::Expr(vec![t(Token::Plus)]);
    let b = || Fragment::Expr(vec![t(Token::Minus)]);
    let c = || Fragment::Num(9);
    assert_eq!(a().merge(b()).merge(c()), a().merge(b().merge(c())));
}

#[test]
fn literals_between_markers() {
    let u = |c: char| Token::Undefined(Some(c));
    assert_eq!(parser_for("\"hi\"").parseStrLit(), Ok(Fragment::StrLit(vec![u('h'), u('i')])));
    assert_eq!(parser_for("\"\"").parseStrLit(), Ok(Fragment::StrLit(vec![])));
    assert_eq!(parser_for("'c'").parseChrLit(), Ok(Fragment::ChrLit(vec![u('c')])));
    assert_eq!(
        parser_for("<io.h>").parseLibLit(),
        Ok(Fragment::LibLit(vec![u('i'), u('o'), Token::FieldSelect, u('h')]))
    );
    assert_eq!(parser_for("x").parseStrLit(), Err(ParseError::NoMatch));
    assert_eq!(
        parser_for("\"ab").parseStrLit(),
        Err(syntax(Production::StringLiteral, None, 3))
    );
    assert_eq!(parser_for("'").parseChrLit(), Err(syntax(Production::CharLiteral, None, 1)));
    assert_eq!(
        parser_for("<a b").parseLibLit(),
        Err(syntax(Production::LibraryLiteral, None, 3))
    );
    let mut parser = parser_for("\"a\" ;");
    assert!(parser.parseStrLit().is_ok());
    assert_eq!(parser.parseSep(), Ok(Fragment::Sep(Token::SemiColon)));
}

#[test]
fn mixed_type_suffixes_chain() {
    assert_eq!(
        parser_for("int*[]*").parseTp(),
        Ok(Fragment::Tp(vec![
            t(Token::Int),
            t(Token::PointerDeref),
            t(Token::LBracket),
            t(Token::RBracket),
            t(Token::PointerDeref),
        ]))
    );
    let mut text = String::from("void");
    let mut expected = vec![t(Token::Void)];
    for k in 0..300 {
        if k % 3 == 0 {
            text.push_str("[]");
            expected.push(t(Token::LBracket));
            expected.push(t(Token::RBracket));
        } else {
            text.push('*');
            expected.push(t(Token::PointerDeref));
        }
    }
    let mut parser = parser_for(&text);
    assert_eq!(parser.parseTp(), Ok(Fragment::Tp(expected)));
    assert_eq!(parser.parseTp(), Err(ParseError::NoMatch));
}

#[test]
fn addition_chain_alternates_in_order() {
    for n in 0..50 {
        let mut text = String::from("a");
        let mut expected = vec![id("a")];
        for _ in 0..n {
            text.push_str("+a");
            expected.push(t(Token::Plus));
            expected.push(id("a"));
        }
        let mut parser = parser_for(&text);
        assert_eq!(parser.parseExp(), Ok(Fragment::Expr(expected)));
        assert_eq!(parser.eat(Token::Undefined(None)), Err(()));
    }
}
