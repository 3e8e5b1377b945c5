//! The recursive-descent parser: one token of lookahead over the tokenizer,
//! and one method per grammar rule, each proved to do what its spec function
//! in the grammar module describes.
#![allow(non_snake_case)]
use vstd::prelude::*;
use crate::token::Token;
use crate::lexer::{Lexer, tokenize, lemma_tokens_len};
use crate::fragment::{Fragment, Frag, Elem};
use crate::grammar::{
    Parsed,
    asnop_tokens,
    binop_tokens,
    call_args,
    close_at,
    exp_tail,
    exp_token_base,
    id_end,
    infix_tokens,
    keyword_list,
    lemma_call_args_within,
    lemma_close_at,
    lemma_exp_tail_within,
    lemma_exp_within,
    lemma_id_end,
    lemma_token_base_within,
    lemma_tp_tail_within,
    lemma_tp_within,
    literal_run,
    parse_asnop,
    parse_binop,
    parse_chrlit,
    parse_exp,
    parse_id,
    parse_keyword,
    parse_liblit,
    parse_num,
    parse_postop,
    parse_sep,
    parse_strlit,
    parse_tp,
    parse_unop,
    postop_tokens,
    primitive_types,
    sep_tokens,
    tok,
    tp_tail,
    unop_tokens,
};

verus! {

broadcast use vstd::seq::group_seq_axioms;

// ---------------------------------------------------------------------------
// Results and errors
// ---------------------------------------------------------------------------

/// The production in which a hard syntax error was found.
#[derive(Clone, Copy, Debug, PartialEq, Eq, Structural)]
pub enum Production {
    /// `struct` without an identifier after it.
    StructType,
    /// `[` in a type without `]` right after it.
    ArrayType,
    /// `(` without an expression or without its `)`.
    Parenthesised,
    /// A call without an argument after `,` or without its `)`.
    Call,
    /// A unary operator without an operand.
    UnaryOperand,
    /// A binary operator without a right operand.
    BinaryOperand,
    /// `?` without its middle expression, its `:` or its last expression.
    Ternary,
    /// `.` or `->` without a field name.
    FieldAccess,
    /// `[` without an index expression or without its `]`.
    Index,
    /// `alloc` without `(`, a type or `)`.
    Alloc,
    /// `alloc_array` without `(`, a type, `,`, an expression or `)`.
    AllocArray,
    /// `"` without its closing `"`.
    StringLiteral,
    /// `'` without its closing `'`.
    CharLiteral,
    /// `<` without its closing `>`.
    LibraryLiteral,
}

/// A hard syntax error: the production, the token found where another was
/// required (`None` at the end of the stream), and that token's index in the
/// stream.
#[derive(Clone, Copy, Debug, PartialEq, Eq, Structural)]
pub struct SyntaxError {
    pub production: Production,
    pub found: Option<Token>,
    pub position: usize,
}

/// Why a rule returned no fragment.
#[derive(Clone, Copy, Debug, PartialEq, Eq, Structural)]
pub enum ParseError {
    /// The rule does not apply here; nothing was consumed.
    NoMatch,
    /// The rule applied but its input is malformed.
    Syntax(SyntaxError),
}

/// `r` and the parser's new position `end` are what `p` describes for a
/// rule that started at a position of `ts`.
pub open spec fn reports(ts: Seq<Token>, start: int, end: int, r: Result<Fragment, ParseError>, p: Parsed) -> bool {
    match p {
        Parsed::Absent => r == Err::<Fragment, ParseError>(ParseError::NoMatch) && end == start,
        Parsed::Found(f, j) => r matches Ok(g) && g@ == f && end == j,
        Parsed::Broken(prod, k) => end == k && r == Err::<Fragment, ParseError>(
            ParseError::Syntax(SyntaxError { production: prod, found: tok(ts, k), position: k as usize }),
        ),
    }
}

/// Whether the head token `actual` satisfies the expectation `expected`: any
/// identifier character satisfies an identifier expectation, any number a
/// number expectation, and otherwise the tokens must be equal.
pub open spec fn accepts(expected: Token, actual: Token) -> bool {
    (expected is Undefined && actual is Undefined) || (expected is Num && actual is Num)
        || expected == actual
}

/// A candidate list that `eat` compares by plain equality.
pub open spec fn plain_candidates(cands: Seq<Token>) -> bool {
    forall|k: int| 0 <= k < cands.len() ==> !(#[trigger] cands[k] is Undefined) && !(cands[k] is Num)
}

/// A rule run on `before` left `after` and returned `r`, as `p` describes.
pub open spec fn follows(before: Parser, after: Parser, r: Result<Fragment, ParseError>, p: Parsed) -> bool {
    &&& after.wf()
    &&& after.stream() == before.stream()
    &&& reports(before.stream(), before.position(), after.position(), r, p)
}

// ---------------------------------------------------------------------------
// Token lists
// ---------------------------------------------------------------------------

fn seps() -> (r: Vec<Token>)
    ensures
        r@ == sep_tokens(),
{
    vec![
        Token::LParen,
        Token::RParen,
        Token::LBracket,
        Token::RBracket,
        Token::LCurly,
        Token::RCurly,
        Token::Comma,
        Token::SemiColon,
    ]
}

fn unops() -> (r: Vec<Token>)
    ensures
        r@ == unop_tokens(),
{
    vec![Token::Not, Token::BitNot, Token::Minus, Token::Mult]
}

fn binops() -> (r: Vec<Token>)
    ensures
        r@ == binop_tokens(),
{
    vec![
        Token::FieldSelect,
        Token::FieldDeref,
        Token::Mult,
        Token::Div,
        Token::Mod,
        Token::Plus,
        Token::Minus,
        Token::LShift,
        Token::RShift,
        Token::Lt,
        Token::Lte,
        Token::Gte,
        Token::Gt,
        Token::Equality,
        Token::NotEq,
        Token::And,
        Token::Xor,
        Token::Or,
        Token::BooleanAnd,
        Token::BooleanOr,
        Token::TernIf,
        Token::TernElse,
    ]
}

fn asnops() -> (r: Vec<Token>)
    ensures
        r@ == asnop_tokens(),
{
    vec![
        Token::Equal,
        Token::PlusEq,
        Token::MinusEq,
        Token::MultEq,
        Token::DivEq,
        Token::ModEq,
        Token::LShiftEq,
        Token::RShiftEq,
        Token::AndEq,
        Token::XorEq,
        Token::OrEq,
    ]
}

fn postops() -> (r: Vec<Token>)
    ensures
        r@ == postop_tokens(),
{
    vec![Token::PostMinusEq, Token::PostPlusEq]
}

fn primitives() -> (r: Vec<Token>)
    ensures
        r@ == primitive_types(),
{
    vec![Token::Int, Token::Bool, Token::Char, Token::String, Token::Void]
}

fn keywords() -> (r: Vec<Token>)
    ensures
        r@ == keyword_list(),
{
    vec![
        Token::Int,
        Token::Bool,
        Token::Char,
        Token::String,
        Token::Void,
        Token::Struct,
        Token::If,
        Token::Else,
        Token::While,
        Token::For,
        Token::Return,
        Token::Assert,
        Token::Error,
        Token::Alloc,
        Token::AllocArray,
        Token::Typedef,
        Token::Break,
        Token::Continue,
        Token::Use,
        Token::True,
        Token::False,
        Token::Null,
    ]
}

fn infixes() -> (r: Vec<Token>)
    ensures
        r@ == infix_tokens(),
{
    vec![
        Token::Mult,
        Token::Div,
        Token::Mod,
        Token::Plus,
        Token::Minus,
        Token::LShift,
        Token::RShift,
        Token::Lt,
        Token::Lte,
        Token::Gte,
        Token::Gt,
        Token::Equality,
        Token::NotEq,
        Token::And,
        Token::Xor,
        Token::Or,
        Token::BooleanAnd,
        Token::BooleanOr,
    ]
}

// ---------------------------------------------------------------------------
// The parser
// ---------------------------------------------------------------------------

/// A parser over the token stream of one source text, with one token of
/// lookahead.
pub struct Parser {
    lexer: Lexer,
    head: Option<Token>,
    index: usize,
}

impl Parser {
    /// The whole token stream.
    pub closed spec fn stream(&self) -> Seq<Token> {
        tokenize(self.lexer.source())
    }

    /// The index in the stream of the head token.
    pub closed spec fn position(&self) -> int {
        self.index as int
    }

    pub closed spec fn wf(&self) -> bool {
        &&& self.lexer.wf()
        &&& 0 <= self.index <= self.stream().len()
        &&& self.stream().len() <= self.lexer.source().len()
        &&& self.stream().skip(self.index as int) == match self.head {
            Some(h) => seq![h] + self.lexer.pending(),
            None => self.lexer.pending(),
        }
        &&& self.head is None ==> self.lexer.pending() == Seq::<Token>::empty()
    }

    /// The head token's index lies within the stream.
    pub proof fn lemma_position(&self)
        requires
            self.wf(),
        ensures
            0 <= self.position() <= self.stream().len(),
    {
    }

    /// A parser at the start of `chars`.
    pub fn new(chars: Vec<char>) -> (r: Parser)
        ensures
            r.wf(),
            r.stream() == tokenize(chars@),
            r.position() == 0,
    {
        let mut lexer = Lexer::new(chars);
        proof {
            lemma_tokens_len(lexer.source(), 0);
        }
        let head = lexer.next();
        let r = Parser { lexer, head, index: 0 };
        assert(r.stream().skip(0) =~= r.stream());
        r
    }

    /// The head token.
    fn peek(&self) -> (r: Option<Token>)
        requires
            self.wf(),
        ensures
            r == tok(self.stream(), self.position()),
    {
        proof {
            assert(self.stream().skip(self.index as int).len() == self.stream().len() - self.index);
            if self.head is Some {
                assert(self.stream()[self.index as int] == self.stream().skip(self.index as int)[0]);
            }
        }
        self.head
    }

    /// Consumes the head token where it satisfies `t` (see [`accepts`]) and
    /// returns it; otherwise consumes nothing.
    pub fn eat(&mut self, t: Token) -> (r: Result<Token, ()>)
        requires
            old(self).wf(),
        ensures
            final(self).wf(),
            final(self).stream() == old(self).stream(),
            ({
                let ts = old(self).stream();
                let i = old(self).position();
                if i < ts.len() && accepts(t, ts[i]) {
                    r == Ok::<Token, ()>(ts[i]) && final(self).position() == i + 1
                } else {
                    r is Err && final(self).position() == i
                }
            }),
    {
        let h = self.peek();
        match h {
            Some(h) => {
                let ok = match (h, t) {
                    (Token::Undefined(_), Token::Undefined(_)) => true,
                    (Token::Num(_), Token::Num(_)) => true,
                    _ => h == t,
                };
                if ok {
                    let ghost ts = self.stream();
                    let ghost i = self.index as int;
                    let ghost before = self.lexer.pending();
                    assert(ts.skip(i) == seq![h] + before);
                    assert(ts.skip(i).len() == ts.len() - i);
                    proof {
                        self.lexer.lemma_source_fits();
                    }
                    let next = self.lexer.next();
                    self.head = next;
                    self.index = self.index + 1;
                    assert(ts.skip(i + 1) =~= ts.skip(i).drop_first());
                    assert((seq![h] + before).drop_first() =~= before);
                    assert(self.stream() == ts);
                    match next {
                        Some(t2) => {
                            assert(self.stream().skip(self.index as int) =~= seq![t2]
                                + self.lexer.pending());
                        },
                        None => {},
                    }
                    Ok(h)
                } else {
                    Err(())
                }
            },
            None => Err(()),
        }
    }

    /// Consumes the head token where it is one of `cands`.
    fn eat_one_of(&mut self, cands: &Vec<Token>) -> (r: Result<Token, ()>)
        requires
            old(self).wf(),
            plain_candidates(cands@),
        ensures
            final(self).wf(),
            final(self).stream() == old(self).stream(),
            ({
                let ts = old(self).stream();
                let i = old(self).position();
                if i < ts.len() && cands@.contains(ts[i]) {
                    r == Ok::<Token, ()>(ts[i]) && final(self).position() == i + 1
                } else {
                    r is Err && final(self).position() == i
                }
            }),
    {
        let mut k: usize = 0;
        while k < cands.len()
            invariant
                self.wf(),
                self.stream() == old(self).stream(),
                self.position() == old(self).position(),
                k <= cands.len(),
                plain_candidates(cands@),
                forall|m: int| 0 <= m < k ==> tok(self.stream(), self.position()) != Some(
                    #[trigger] cands@[m],
                ),
            decreases cands.len() - k,
        {
            match self.eat(cands[k]) {
                Ok(t) => return Ok(t),
                Err(_) => {},
            }
            k = k + 1;
        }
        Err(())
    }

    /// Consumes the head token where it is one of `cands`; `NoMatch` otherwise.
    fn one_of(&mut self, cands: &Vec<Token>) -> (r: Result<Token, ParseError>)
        requires
            old(self).wf(),
            plain_candidates(cands@),
        ensures
            final(self).wf(),
            final(self).stream() == old(self).stream(),
            ({
                let ts = old(self).stream();
                let i = old(self).position();
                if i < ts.len() && cands@.contains(ts[i]) {
                    r == Ok::<Token, ParseError>(ts[i]) && final(self).position() == i + 1
                } else {
                    r == Err::<Token, ParseError>(ParseError::NoMatch) && final(self).position() == i
                }
            }),
    {
        match self.eat_one_of(cands) {
            Ok(t) => Ok(t),
            Err(_) => Err(ParseError::NoMatch),
        }
    }

    /// `<id> ::= [A-Za-z_][A-Za-z0-9_]*`, as a run of identifier characters.
    pub fn parseId(&mut self) -> (r: Result<Fragment, ParseError>)
        requires
            old(self).wf(),
        ensures
            follows(*old(self), *final(self), r, parse_id(old(self).stream(), old(self).position())),
    {
        let ghost ts = self.stream();
        let ghost i0 = self.position();
        let mut tokens: Vec<Token> = Vec::new();
        loop
            invariant
                self.wf(),
                self.stream() == ts,
                0 <= i0 <= self.position() <= ts.len(),
                tokens@ == ts.subrange(i0, self.position()),
                id_end(ts, i0) == id_end(ts, self.position()),
            ensures
                self.wf(),
                self.stream() == ts,
                0 <= i0 <= self.position() <= ts.len(),
                tokens@ == ts.subrange(i0, self.position()),
                id_end(ts, i0) == self.position(),
            decreases ts.len() - self.position(),
        {
            let ghost i = self.position();
            match self.eat(Token::Undefined(None)) {
                Ok(t) => {
                    tokens.push(t);
                    assert(tokens@ =~= ts.subrange(i0, self.position()));
                },
                Err(_) => break,
            }
        }
        if tokens.len() > 0 {
            Ok(Fragment::Id(tokens))
        } else {
            Err(ParseError::NoMatch)
        }
    }

    /// `<num>`: one number token.
    pub fn parseNum(&mut self) -> (r: Result<Fragment, ParseError>)
        requires
            old(self).wf(),
        ensures
            follows(*old(self), *final(self), r, parse_num(old(self).stream(), old(self).position())),
    {
        match self.eat(Token::Num(0)) {
            Ok(Token::Num(x)) => Ok(Fragment::Num(x)),
            _ => Err(ParseError::NoMatch),
        }
    }

    /// `<sep> ::= ( | ) | [ | ] | { | } | , | ;`
    pub fn parseSep(&mut self) -> (r: Result<Fragment, ParseError>)
        requires
            old(self).wf(),
        ensures
            follows(*old(self), *final(self), r, parse_sep(old(self).stream(), old(self).position())),
    {
        let t = self.one_of(&seps())?;
        Ok(Fragment::Sep(t))
    }

    /// `<unop> ::= ! | ~ | - | *`, where `*` becomes a pointer dereference.
    pub fn parseUnop(&mut self) -> (r: Result<Fragment, ParseError>)
        requires
            old(self).wf(),
        ensures
            follows(*old(self), *final(self), r, parse_unop(old(self).stream(), old(self).position())),
    {
        let t = self.one_of(&unops())?;
        if t == Token::Mult {
            Ok(Fragment::Unop(Token::PointerDeref))
        } else {
            Ok(Fragment::Unop(t))
        }
    }

    /// `<binop> ::= . | -> | * | / | % | + | - | << | >> | < | <= | >= | > | == | !=
    /// | & | ^ | | | && | || | ? | :`
    pub fn parseBinop(&mut self) -> (r: Result<Fragment, ParseError>)
        requires
            old(self).wf(),
        ensures
            follows(*old(self), *final(self), r, parse_binop(old(self).stream(), old(self).position())),
    {
        let t = self.one_of(&binops())?;
        Ok(Fragment::Binop(t))
    }

    /// `<asnop> ::= = | += | -= | *= | /= | %= | <<= | >>= | &= | ^= | |=`
    pub fn parseAsnop(&mut self) -> (r: Result<Fragment, ParseError>)
        requires
            old(self).wf(),
        ensures
            follows(*old(self), *final(self), r, parse_asnop(old(self).stream(), old(self).position())),
    {
        let t = self.one_of(&asnops())?;
        Ok(Fragment::Asnop(t))
    }

    /// `<postop> ::= -- | ++`
    pub fn parsePostop(&mut self) -> (r: Result<Fragment, ParseError>)
        requires
            old(self).wf(),
        ensures
            follows(*old(self), *final(self), r, parse_postop(old(self).stream(), old(self).position())),
    {
        let t = self.one_of(&postops())?;
        Ok(Fragment::Postop(t))
    }

    /// One keyword: a primitive type, a control word, `true`, `false` or
    /// `NULL`.
    pub fn parseKeyword(&mut self) -> (r: Result<Fragment, ParseError>)
        requires
            old(self).wf(),
        ensures
            follows(*old(self), *final(self), r, parse_keyword(old(self).stream(), old(self).position())),
    {
        let t = self.one_of(&keywords())?;
        Ok(Fragment::Keyword(t))
    }

    /// The hard error for `production` at the head token.
    fn fail(&self, production: Production) -> (r: ParseError)
        requires
            self.wf(),
        ensures
            r == ParseError::Syntax(
                SyntaxError {
                    production,
                    found: tok(self.stream(), self.position()),
                    position: self.position() as usize,
                },
            ),
    {
        ParseError::Syntax(SyntaxError { production, found: self.peek(), position: self.index })
    }

    /// `<tp>`: a type expression (see [`parse_tp`]).
    pub fn parseTp(&mut self) -> (r: Result<Fragment, ParseError>)
        requires
            old(self).wf(),
        ensures
            follows(*old(self), *final(self), r, parse_tp(old(self).stream(), old(self).position())),
    {
        let ghost ts = self.stream();
        let ghost i = self.position();
        let acc = Fragment::Tp(Vec::new());
        proof {
            assert(acc@ == Frag::Tp(Seq::empty()));
        }
        match self.parseId() {
            Ok(f) => {
                let acc = acc.merge(f);
                assert(acc@->Tp_0 =~= seq![Elem::Node(f@)]);
                proof {
                    lemma_tp_tail_within(ts, self.position(), acc@->Tp_0);
                }
                return self.tp_tail(acc);
            },
            Err(_) => {},
        }
        match self.one_of(&primitives()) {
            Ok(t) => {
                let acc = acc.push_terminal(t);
                assert(acc@->Tp_0 =~= seq![Elem::Terminal(t)]);
                proof {
                    lemma_tp_tail_within(ts, self.position(), acc@->Tp_0);
                }
                return self.tp_tail(acc);
            },
            Err(_) => {},
        }
        match self.eat(Token::Struct) {
            Ok(_) => {
                let acc = acc.push_terminal(Token::Struct);
                match self.parseId() {
                    Ok(f) => {
                        let acc = acc.merge(f);
                        assert(acc@->Tp_0 =~= seq![Elem::Terminal(Token::Struct), Elem::Node(f@)]);
                        proof {
                            lemma_tp_tail_within(ts, self.position(), acc@->Tp_0);
                        }
                        self.tp_tail(acc)
                    },
                    Err(_) => Err(self.fail(Production::StructType)),
                }
            },
            Err(_) => Err(ParseError::NoMatch),
        }
    }

    /// The extensions of a type (see [`tp_tail`]), applied in a loop.
    fn tp_tail(&mut self, init: Fragment) -> (r: Result<Fragment, ParseError>)
        requires
            old(self).wf(),
            init@ is Tp,
        ensures
            follows(
                *old(self),
                *final(self),
                r,
                tp_tail(old(self).stream(), old(self).position(), init@->Tp_0),
            ),
    {
        let ghost ts = self.stream();
        let ghost start = tp_tail(ts, self.position(), init@->Tp_0);
        let mut acc = init;
        loop
            invariant
                self.wf(),
                self.stream() == ts,
                acc@ is Tp,
                tp_tail(ts, self.position(), acc@->Tp_0) == start,
                ts == old(self).stream(),
                start == tp_tail(ts, old(self).position(), init@->Tp_0),
            decreases ts.len() - self.position(),
        {
            if self.eat(Token::Mult).is_ok() {
                acc = acc.push_terminal(Token::PointerDeref);
            } else if self.eat(Token::LBracket).is_ok() {
                if self.eat(Token::RBracket).is_ok() {
                    acc = acc.push_terminal(Token::LBracket).push_terminal(Token::RBracket);
                } else {
                    return Err(self.fail(Production::ArrayType));
                }
            } else {
                return Ok(acc);
            }
        }
    }

    /// `<exp>`: a general expression (see [`parse_exp`]).
    pub fn parseExp(&mut self) -> (r: Result<Fragment, ParseError>)
        requires
            old(self).wf(),
        ensures
            follows(*old(self), *final(self), r, parse_exp(old(self).stream(), old(self).position())),
        decreases old(self).stream().len() - old(self).position(), 3nat,
    {
        let ghost ts = self.stream();
        let ghost i = self.position();
        proof {
            lemma_exp_within(ts, i);
            lemma_id_end(ts, i);
        }
        let empty = Fragment::Expr(Vec::new());
        proof {
            assert(empty@ == Frag::Expr(Seq::empty()));
        }
        match self.parseNum() {
            Ok(n) => {
                let acc = empty.merge(n);
                proof {
                    lemma_exp_tail_within(ts, self.position(), acc@->Expr_0);
                }
                return self.exp_tail(acc);
            },
            Err(_) => {},
        }
        match self.parseId() {
            Ok(f) => {
                let acc = empty.merge(f);
                if self.eat(Token::LParen).is_ok() {
                    let acc = acc.push_terminal(Token::LParen);
                    proof {
                        assert(acc@->Expr_0 =~= seq![Elem::Node(f@), Elem::Terminal(Token::LParen)]);
                        lemma_call_args_within(ts, self.position(), acc@->Expr_0, false);
                    }
                    return self.call_args(acc, false);
                } else {
                    proof {
                        lemma_exp_tail_within(ts, self.position(), acc@->Expr_0);
                    }
                    return self.exp_tail(acc);
                }
            },
            Err(_) => {},
        }
        match self.parseUnop() {
            Ok(u) => {
                let acc = empty.merge(u);
                let ghost j = self.position();
                proof {
                    lemma_exp_within(ts, j);
                }
                match self.parseExp() {
                    Ok(e) => {
                        proof {
                            crate::fragment::lemma_merge_into_expr(acc@->Expr_0, e@);
                        }
                        let acc = acc.merge(e);
                        proof {
                            lemma_exp_tail_within(ts, self.position(), acc@->Expr_0);
                        }
                        return self.exp_tail(acc);
                    },
                    Err(ParseError::NoMatch) => return Err(self.fail(Production::UnaryOperand)),
                    Err(err) => return Err(err),
                }
            },
            Err(_) => {},
        }
        self.exp_token_base()
    }

    /// The base expressions that start with a fixed token (see
    /// [`exp_token_base`]).
    #[verifier::rlimit(60)]
    fn exp_token_base(&mut self) -> (r: Result<Fragment, ParseError>)
        requires
            old(self).wf(),
        ensures
            follows(*old(self), *final(self), r, exp_token_base(old(self).stream(), old(self).position())),
        decreases old(self).stream().len() - old(self).position(), 2nat,
    {
        let ghost ts = self.stream();
        let ghost i = self.position();
        proof {
            lemma_token_base_within(ts, i);
        }
        let empty = Fragment::Expr(Vec::new());
        proof {
            assert(empty@ == Frag::Expr(Seq::empty()));
        }
        match self.peek() {
            Some(Token::LParen) => {
                let _ = self.eat(Token::LParen);
                let acc = empty.push_terminal(Token::LParen);
                proof {
                    lemma_exp_within(ts, i + 1);
                }
                match self.parseExp() {
                    Ok(e) => {
                        proof {
                            crate::fragment::lemma_merge_into_expr(acc@->Expr_0, e@);
                        }
                        let acc = acc.merge(e);
                        if self.eat(Token::RParen).is_ok() {
                            let acc = acc.push_terminal(Token::RParen);
                            proof {
                                lemma_exp_tail_within(ts, self.position(), acc@->Expr_0);
                            }
                            self.exp_tail(acc)
                        } else {
                            Err(self.fail(Production::Parenthesised))
                        }
                    },
                    Err(ParseError::NoMatch) => Err(self.fail(Production::Parenthesised)),
                    Err(err) => Err(err),
                }
            },
            Some(Token::True) | Some(Token::False) | Some(Token::Null) => {
                let t = self.eat_any();
                let acc = empty.push_terminal(t);
                proof {
                    lemma_exp_tail_within(ts, self.position(), acc@->Expr_0);
                }
                self.exp_tail(acc)
            },
            Some(Token::Alloc) => {
                let _ = self.eat(Token::Alloc);
                let acc = empty.push_terminal(Token::Alloc);
                if self.eat(Token::LParen).is_err() {
                    return Err(self.fail(Production::Alloc));
                }
                let acc = acc.push_terminal(Token::LParen);
                proof {
                    lemma_tp_within(ts, i + 2);
                }
                match self.parseTp() {
                    Ok(tp) => {
                        proof {
                            crate::fragment::lemma_merge_into_expr(acc@->Expr_0, tp@);
                        }
                        let acc = acc.merge(tp);
                        if self.eat(Token::RParen).is_ok() {
                            let acc = acc.push_terminal(Token::RParen);
                            proof {
                                assert(acc@->Expr_0 =~= seq![
                                    Elem::Terminal(Token::Alloc),
                                    Elem::Terminal(Token::LParen),
                                    Elem::Node(tp@),
                                    Elem::Terminal(Token::RParen),
                                ]);
                                lemma_exp_tail_within(ts, self.position(), acc@->Expr_0);
                            }
                            self.exp_tail(acc)
                        } else {
                            Err(self.fail(Production::Alloc))
                        }
                    },
                    Err(ParseError::NoMatch) => Err(self.fail(Production::Alloc)),
                    Err(err) => Err(err),
                }
            },
            Some(Token::AllocArray) => {
                let _ = self.eat(Token::AllocArray);
                let acc = empty.push_terminal(Token::AllocArray);
                if self.eat(Token::LParen).is_err() {
                    return Err(self.fail(Production::AllocArray));
                }
                let acc = acc.push_terminal(Token::LParen);
                proof {
                    lemma_tp_within(ts, i + 2);
                }
                match self.parseTp() {
                    Ok(tp) => {
                        proof {
                            crate::fragment::lemma_merge_into_expr(acc@->Expr_0, tp@);
                        }
                        let acc = acc.merge(tp);
                        if self.eat(Token::Comma).is_err() {
                            return Err(self.fail(Production::AllocArray));
                        }
                        let acc = acc.push_terminal(Token::Comma);
                        proof {
                            assert(acc@->Expr_0 =~= seq![
                                Elem::Terminal(Token::AllocArray),
                                Elem::Terminal(Token::LParen),
                                Elem::Node(tp@),
                                Elem::Terminal(Token::Comma),
                            ]);
                            lemma_exp_within(ts, self.position());
                        }
                        match self.parseExp() {
                            Ok(e) => {
                                proof {
                                    crate::fragment::lemma_merge_into_expr(acc@->Expr_0, e@);
                                }
                                let acc = acc.merge(e);
                                if self.eat(Token::RParen).is_ok() {
                                    let acc = acc.push_terminal(Token::RParen);
                                    proof {
                                        lemma_exp_tail_within(ts, self.position(), acc@->Expr_0);
                                    }
                                    self.exp_tail(acc)
                                } else {
                                    Err(self.fail(Production::AllocArray))
                                }
                            },
                            Err(ParseError::NoMatch) => Err(self.fail(Production::AllocArray)),
                            Err(err) => Err(err),
                        }
                    },
                    Err(ParseError::NoMatch) => Err(self.fail(Production::AllocArray)),
                    Err(err) => Err(err),
                }
            },
            _ => Err(ParseError::NoMatch),
        }
    }

    /// Consumes the head token, whatever it is.
    fn eat_any(&mut self) -> (r: Token)
        requires
            old(self).wf(),
            old(self).position() < old(self).stream().len(),
        ensures
            final(self).wf(),
            final(self).stream() == old(self).stream(),
            r == old(self).stream()[old(self).position()],
            final(self).position() == old(self).position() + 1,
    {
        let t = self.peek().unwrap();
        let _ = self.eat(t);
        t
    }

    /// The arguments of a call (see [`call_args`]), read in a loop.
    fn call_args(&mut self, init: Fragment, first_need: bool) -> (r: Result<Fragment, ParseError>)
        requires
            old(self).wf(),
            init@ is Expr,
        ensures
            follows(
                *old(self),
                *final(self),
                r,
                call_args(old(self).stream(), old(self).position(), init@->Expr_0, first_need),
            ),
        decreases old(self).stream().len() - old(self).position(), 4nat,
    {
        let ghost ts = self.stream();
        let ghost i0 = self.position();
        let ghost start = call_args(ts, i0, init@->Expr_0, first_need);
        let mut acc = init;
        let mut need = first_need;
        loop
            invariant
                self.wf(),
                self.stream() == ts,
                ts == old(self).stream(),
                i0 == old(self).position(),
                i0 <= self.position(),
                acc@ is Expr,
                call_args(ts, self.position(), acc@->Expr_0, need) == start,
                start == call_args(ts, i0, init@->Expr_0, first_need),
            decreases ts.len() - self.position(),
        {
            let ghost i = self.position();
            proof {
                lemma_exp_within(ts, i);
            }
            match self.parseExp() {
                Ok(e) => {
                    proof {
                        crate::fragment::lemma_merge_into_expr(acc@->Expr_0, e@);
                    }
                    acc = acc.merge(e);
                    if self.eat(Token::Comma).is_ok() {
                        acc = acc.push_terminal(Token::Comma);
                        need = true;
                    } else if self.eat(Token::RParen).is_ok() {
                        acc = acc.push_terminal(Token::RParen);
                        proof {
                            lemma_exp_tail_within(ts, self.position(), acc@->Expr_0);
                        }
                        return self.exp_tail(acc);
                    } else {
                        return Err(self.fail(Production::Call));
                    }
                },
                Err(ParseError::NoMatch) => {
                    if need {
                        return Err(self.fail(Production::Call));
                    } else if self.eat(Token::RParen).is_ok() {
                        acc = acc.push_terminal(Token::RParen);
                        proof {
                            lemma_exp_tail_within(ts, self.position(), acc@->Expr_0);
                        }
                        return self.exp_tail(acc);
                    } else {
                        return Err(self.fail(Production::Call));
                    }
                },
                Err(err) => return Err(err),
            }
        }
    }

    /// The extensions of an expression (see [`exp_tail`]), applied in a loop.
    fn exp_tail(&mut self, init: Fragment) -> (r: Result<Fragment, ParseError>)
        requires
            old(self).wf(),
            init@ is Expr,
        ensures
            follows(
                *old(self),
                *final(self),
                r,
                exp_tail(old(self).stream(), old(self).position(), init@->Expr_0),
            ),
        decreases old(self).stream().len() - old(self).position(), 0nat,
    {
        let ghost ts = self.stream();
        let ghost i0 = self.position();
        let ghost start = exp_tail(ts, i0, init@->Expr_0);
        let infix = infixes();
        let mut acc = init;
        loop
            invariant
                self.wf(),
                self.stream() == ts,
                ts == old(self).stream(),
                i0 == old(self).position(),
                i0 <= self.position(),
                acc@ is Expr,
                infix@ == infix_tokens(),
                exp_tail(ts, self.position(), acc@->Expr_0) == start,
                start == exp_tail(ts, i0, init@->Expr_0),
            decreases ts.len() - self.position(),
        {
            let ghost i = self.position();
            let t = match self.peek() {
                Some(t) => t,
                None => return Ok(acc),
            };
            if t == Token::FieldSelect || t == Token::FieldDeref {
                let _ = self.eat_any();
                acc = acc.push_terminal(t);
                proof {
                    lemma_id_end(ts, i + 1);
                }
                match self.parseId() {
                    Ok(f) => {
                        acc = acc.merge(f);
                    },
                    Err(_) => return Err(self.fail(Production::FieldAccess)),
                }
            } else if t == Token::TernIf {
                let _ = self.eat_any();
                acc = acc.push_terminal(t);
                proof {
                    lemma_exp_within(ts, i + 1);
                }
                match self.parseExp() {
                    Ok(m) => {
                        proof {
                            crate::fragment::lemma_merge_into_expr(acc@->Expr_0, m@);
                        }
                        acc = acc.merge(m);
                    },
                    Err(ParseError::NoMatch) => return Err(self.fail(Production::Ternary)),
                    Err(err) => return Err(err),
                }
                if self.eat(Token::TernElse).is_err() {
                    return Err(self.fail(Production::Ternary));
                }
                acc = acc.push_terminal(Token::TernElse);
                proof {
                    lemma_exp_within(ts, self.position());
                }
                match self.parseExp() {
                    Ok(e) => {
                        proof {
                            crate::fragment::lemma_merge_into_expr(acc@->Expr_0, e@);
                        }
                        acc = acc.merge(e);
                    },
                    Err(ParseError::NoMatch) => return Err(self.fail(Production::Ternary)),
                    Err(err) => return Err(err),
                }
            } else if t == Token::LBracket {
                let _ = self.eat_any();
                acc = acc.push_terminal(t);
                proof {
                    lemma_exp_within(ts, i + 1);
                }
                match self.parseExp() {
                    Ok(e) => {
                        proof {
                            crate::fragment::lemma_merge_into_expr(acc@->Expr_0, e@);
                        }
                        acc = acc.merge(e);
                    },
                    Err(ParseError::NoMatch) => return Err(self.fail(Production::Index)),
                    Err(err) => return Err(err),
                }
                if self.eat(Token::RBracket).is_err() {
                    return Err(self.fail(Production::Index));
                }
                acc = acc.push_terminal(Token::RBracket);
            } else if self.one_of(&infix).is_ok() {
                acc = acc.push_terminal(t);
                proof {
                    lemma_exp_within(ts, i + 1);
                }
                match self.parseExp() {
                    Ok(e) => {
                        proof {
                            crate::fragment::lemma_merge_into_expr(acc@->Expr_0, e@);
                        }
                        acc = acc.merge(e);
                    },
                    Err(ParseError::NoMatch) => return Err(self.fail(Production::BinaryOperand)),
                    Err(err) => return Err(err),
                }
            } else {
                return Ok(acc);
            }
        }
    }

    /// The raw tokens between an `open` marker and the next `close` marker
    /// (see [`literal_run`]).
    fn literal_run(&mut self, open: Token, close: Token, production: Production) -> (r: Result<Vec<Token>, ParseError>)
        requires
            old(self).wf(),
            !(open is Undefined) && !(open is Num),
            !(close is Undefined) && !(close is Num),
        ensures
            final(self).wf(),
            final(self).stream() == old(self).stream(),
            ({
                let ts = old(self).stream();
                let i = old(self).position();
                let k = close_at(ts, i + 1, close);
                if tok(ts, i) != Some(open) {
                    r == Err::<Vec<Token>, ParseError>(ParseError::NoMatch) && final(self).position() == i
                } else if k < ts.len() {
                    r matches Ok(v) && v@ == ts.subrange(i + 1, k) && final(self).position() == k + 1
                } else {
                    final(self).position() == ts.len() && r == Err::<Vec<Token>, ParseError>(
                        ParseError::Syntax(
                            SyntaxError { production, found: None, position: ts.len() as usize },
                        ),
                    )
                }
            }),
    {
        let ghost ts = self.stream();
        let ghost i = self.position();
        if self.eat(open).is_err() {
            return Err(ParseError::NoMatch);
        }
        proof {
            lemma_close_at(ts, i + 1, close);
        }
        let mut run: Vec<Token> = Vec::new();
        loop
            invariant
                self.wf(),
                self.stream() == ts,
                ts == old(self).stream(),
                i == old(self).position(),
                tok(ts, i) == Some(open),
                i + 1 <= self.position() <= close_at(ts, i + 1, close),
                close_at(ts, i + 1, close) <= ts.len(),
                close_at(ts, i + 1, close) == close_at(ts, self.position(), close),
                close_at(ts, i + 1, close) < ts.len() ==> ts[close_at(ts, i + 1, close)] == close,
                run@ == ts.subrange(i + 1, self.position()),
            decreases ts.len() - self.position(),
        {
            match self.peek() {
                None => return Err(self.fail(production)),
                Some(t) => {
                    if t == close {
                        let _ = self.eat_any();
                        return Ok(run);
                    }
                    let t = self.eat_any();
                    run.push(t);
                    assert(run@ =~= ts.subrange(i + 1, self.position()));
                },
            }
        }
    }

    /// `<strlit>`: the raw tokens between double quotes.
    pub fn parseStrLit(&mut self) -> (r: Result<Fragment, ParseError>)
        requires
            old(self).wf(),
        ensures
            follows(*old(self), *final(self), r, parse_strlit(old(self).stream(), old(self).position())),
    {
        let run = self.literal_run(Token::DQuoteMark, Token::DQuoteMark, Production::StringLiteral)?;
        Ok(Fragment::StrLit(run))
    }

    /// `<chrlit>`: the raw tokens between single quotes.
    pub fn parseChrLit(&mut self) -> (r: Result<Fragment, ParseError>)
        requires
            old(self).wf(),
        ensures
            follows(*old(self), *final(self), r, parse_chrlit(old(self).stream(), old(self).position())),
    {
        let run = self.literal_run(Token::QuoteMark, Token::QuoteMark, Production::CharLiteral)?;
        Ok(Fragment::ChrLit(run))
    }

    /// `<liblit>`: the raw tokens between `<` and `>`.
    pub fn parseLibLit(&mut self) -> (r: Result<Fragment, ParseError>)
        requires
            old(self).wf(),
        ensures
            follows(*old(self), *final(self), r, parse_liblit(old(self).stream(), old(self).position())),
    {
        let run = self.literal_run(Token::Lt, Token::Gt, Production::LibraryLiteral)?;
        Ok(Fragment::LibLit(run))
    }
}

} // verus!
