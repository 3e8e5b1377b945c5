//! The grammar as spec functions: each rule says, for a token stream and a
//! position, whether the rule applies there, what fragment it produces and
//! where it stops, or where a hard syntax error stands.
use vstd::prelude::*;
use crate::token::Token;
use crate::fragment::{Frag, Elem, spliced};
use crate::parser::Production;

verus! {

broadcast use vstd::seq::group_seq_axioms;

// ---------------------------------------------------------------------------
// Outcomes
// ---------------------------------------------------------------------------

/// The outcome of a grammar rule at a position of the stream.
pub enum Parsed {
    /// The rule does not apply.
    Absent,
    /// The rule produced a fragment and stopped before the given position.
    Found(Frag, int),
    /// A hard error at the given position.
    Broken(Production, int),
}

/// The token at `i`, if any.
pub open spec fn tok(ts: Seq<Token>, i: int) -> Option<Token> {
    if 0 <= i < ts.len() {
        Some(ts[i])
    } else {
        None
    }
}

/// Where a rule that started at `i` stops: a found fragment ends after `i`
/// (or at `i`, where `strict` does not hold), an error stands at or after
/// `i`, and neither lies past the end of the stream.
pub open spec fn within(ts: Seq<Token>, i: int, p: Parsed, strict: bool) -> bool {
    match p {
        Parsed::Absent => true,
        Parsed::Found(_, j) => (if strict { i < j } else { i <= j }) && j <= ts.len(),
        Parsed::Broken(_, k) => i <= k <= ts.len(),
    }
}

// ---------------------------------------------------------------------------
// Token classes
// ---------------------------------------------------------------------------

pub open spec fn sep_tokens() -> Seq<Token> {
    seq![
        Token::LParen,
        Token::RParen,
        Token::LBracket,
        Token::RBracket,
        Token::LCurly,
        Token::RCurly,
        Token::Comma,
        Token::SemiColon,
    ]
}

pub open spec fn unop_tokens() -> Seq<Token> {
    seq![Token::Not, Token::BitNot, Token::Minus, Token::Mult]
}

pub open spec fn binop_tokens() -> Seq<Token> {
    seq![
        Token::FieldSelect,
        Token::FieldDeref,
        Token::Mult,
        Token::Div,
        Token::Mod,
        Token::Plus,
        Token::Minus,
        Token::LShift,
        Token::RShift,
        Token::Lt,
        Token::Lte,
        Token::Gte,
        Token::Gt,
        Token::Equality,
        Token::NotEq,
        Token::And,
        Token::Xor,
        Token::Or,
        Token::BooleanAnd,
        Token::BooleanOr,
        Token::TernIf,
        Token::TernElse,
    ]
}

pub open spec fn asnop_tokens() -> Seq<Token> {
    seq![
        Token::Equal,
        Token::PlusEq,
        Token::MinusEq,
        Token::MultEq,
        Token::DivEq,
        Token::ModEq,
        Token::LShiftEq,
        Token::RShiftEq,
        Token::AndEq,
        Token::XorEq,
        Token::OrEq,
    ]
}

pub open spec fn postop_tokens() -> Seq<Token> {
    seq![Token::PostMinusEq, Token::PostPlusEq]
}

pub open spec fn primitive_types() -> Seq<Token> {
    seq![Token::Int, Token::Bool, Token::Char, Token::String, Token::Void]
}

pub open spec fn keyword_list() -> Seq<Token> {
    seq![
        Token::Int,
        Token::Bool,
        Token::Char,
        Token::String,
        Token::Void,
        Token::Struct,
        Token::If,
        Token::Else,
        Token::While,
        Token::For,
        Token::Return,
        Token::Assert,
        Token::Error,
        Token::Alloc,
        Token::AllocArray,
        Token::Typedef,
        Token::Break,
        Token::Continue,
        Token::Use,
        Token::True,
        Token::False,
        Token::Null,
    ]
}

/// Binary operators that extend an expression with a right operand.
pub open spec fn infix_tokens() -> Seq<Token> {
    seq![
        Token::Mult,
        Token::Div,
        Token::Mod,
        Token::Plus,
        Token::Minus,
        Token::LShift,
        Token::RShift,
        Token::Lt,
        Token::Lte,
        Token::Gte,
        Token::Gt,
        Token::Equality,
        Token::NotEq,
        Token::And,
        Token::Xor,
        Token::Or,
        Token::BooleanAnd,
        Token::BooleanOr,
    ]
}

// ---------------------------------------------------------------------------
// Terminal rules
// ---------------------------------------------------------------------------

/// The end of the run of identifier characters that starts at `i`.
pub open spec fn id_end(ts: Seq<Token>, i: int) -> int
    decreases ts.len() - i,
{
    if 0 <= i < ts.len() && ts[i] is Undefined {
        id_end(ts, i + 1)
    } else {
        i
    }
}

/// `<id>`: the longest non-empty run of identifier characters.
pub open spec fn parse_id(ts: Seq<Token>, i: int) -> Parsed {
    if id_end(ts, i) > i {
        Parsed::Found(Frag::Id(ts.subrange(i, id_end(ts, i))), id_end(ts, i))
    } else {
        Parsed::Absent
    }
}

/// `<num>`: one number token.
pub open spec fn parse_num(ts: Seq<Token>, i: int) -> Parsed {
    match tok(ts, i) {
        Some(Token::Num(n)) => Parsed::Found(Frag::Num(n), i + 1),
        _ => Parsed::Absent,
    }
}

/// `<sep>`: one separator token.
pub open spec fn parse_sep(ts: Seq<Token>, i: int) -> Parsed {
    match tok(ts, i) {
        Some(t) => if sep_tokens().contains(t) {
            Parsed::Found(Frag::Sep(t), i + 1)
        } else {
            Parsed::Absent
        },
        None => Parsed::Absent,
    }
}

/// `<unop>`: one unary operator; `*` stands for pointer dereference here.
pub open spec fn parse_unop(ts: Seq<Token>, i: int) -> Parsed {
    match tok(ts, i) {
        Some(t) => if unop_tokens().contains(t) {
            Parsed::Found(
                Frag::Unop(
                    if t == Token::Mult {
                        Token::PointerDeref
                    } else {
                        t
                    },
                ),
                i + 1,
            )
        } else {
            Parsed::Absent
        },
        None => Parsed::Absent,
    }
}

/// `<binop>`: one binary operator.
pub open spec fn parse_binop(ts: Seq<Token>, i: int) -> Parsed {
    match tok(ts, i) {
        Some(t) => if binop_tokens().contains(t) {
            Parsed::Found(Frag::Binop(t), i + 1)
        } else {
            Parsed::Absent
        },
        None => Parsed::Absent,
    }
}

/// `<asnop>`: one assignment operator.
pub open spec fn parse_asnop(ts: Seq<Token>, i: int) -> Parsed {
    match tok(ts, i) {
        Some(t) => if asnop_tokens().contains(t) {
            Parsed::Found(Frag::Asnop(t), i + 1)
        } else {
            Parsed::Absent
        },
        None => Parsed::Absent,
    }
}

/// `<postop>`: one postfix operator.
pub open spec fn parse_postop(ts: Seq<Token>, i: int) -> Parsed {
    match tok(ts, i) {
        Some(t) => if postop_tokens().contains(t) {
            Parsed::Found(Frag::Postop(t), i + 1)
        } else {
            Parsed::Absent
        },
        None => Parsed::Absent,
    }
}

/// One keyword token.
pub open spec fn parse_keyword(ts: Seq<Token>, i: int) -> Parsed {
    match tok(ts, i) {
        Some(t) => if keyword_list().contains(t) {
            Parsed::Found(Frag::Keyword(t), i + 1)
        } else {
            Parsed::Absent
        },
        None => Parsed::Absent,
    }
}

pub proof fn lemma_id_end(ts: Seq<Token>, i: int)
    requires
        0 <= i <= ts.len(),
    ensures
        i <= id_end(ts, i) <= ts.len(),
    decreases ts.len() - i,
{
    if i < ts.len() && ts[i] is Undefined {
        lemma_id_end(ts, i + 1);
    }
}

// ---------------------------------------------------------------------------
// Type expressions
// ---------------------------------------------------------------------------

/// `<tp> ::= int | bool | string | char | void | <tp> * | <tp> [ ] | struct <sid> | <aid>`
///
/// The left recursion is removed: a base type is followed by any number of
/// extensions, each a `*` or a `[ ]` (see [`tp_tail`]).
pub open spec fn parse_tp(ts: Seq<Token>, i: int) -> Parsed {
    match parse_id(ts, i) {
        Parsed::Found(f, j) => tp_tail(ts, j, seq![Elem::Node(f)]),
        _ => match tok(ts, i) {
            Some(t) => if primitive_types().contains(t) {
                tp_tail(ts, i + 1, seq![Elem::Terminal(t)])
            } else if t == Token::Struct {
                match parse_id(ts, i + 1) {
                    Parsed::Found(f, j) => tp_tail(
                        ts,
                        j,
                        seq![Elem::Terminal(Token::Struct), Elem::Node(f)],
                    ),
                    _ => Parsed::Broken(Production::StructType, i + 1),
                }
            } else {
                Parsed::Absent
            },
            None => Parsed::Absent,
        },
    }
}

/// The extensions of a type whose elements so far are `acc`: a `*` adds a
/// pointer dereference, `[ ]` adds both brackets, and anything else ends the
/// type.
pub open spec fn tp_tail(ts: Seq<Token>, i: int, acc: Seq<Elem>) -> Parsed
    decreases ts.len() - i,
{
    if tok(ts, i) == Some(Token::Mult) {
        tp_tail(ts, i + 1, acc.push(Elem::Terminal(Token::PointerDeref)))
    } else if tok(ts, i) == Some(Token::LBracket) {
        if tok(ts, i + 1) == Some(Token::RBracket) {
            tp_tail(
                ts,
                i + 2,
                acc.push(Elem::Terminal(Token::LBracket)).push(Elem::Terminal(Token::RBracket)),
            )
        } else {
            Parsed::Broken(Production::ArrayType, i + 1)
        }
    } else {
        Parsed::Found(Frag::Tp(acc), i)
    }
}

pub proof fn lemma_tp_tail_within(ts: Seq<Token>, i: int, acc: Seq<Elem>)
    requires
        0 <= i <= ts.len(),
    ensures
        within(ts, i, tp_tail(ts, i, acc), false),
        !(tp_tail(ts, i, acc) is Absent),
        tp_tail(ts, i, acc) matches Parsed::Found(f, _) ==> f is Tp,
    decreases ts.len() - i,
{
    if tok(ts, i) == Some(Token::Mult) {
        lemma_tp_tail_within(ts, i + 1, acc.push(Elem::Terminal(Token::PointerDeref)));
    } else if tok(ts, i) == Some(Token::LBracket) && tok(ts, i + 1) == Some(Token::RBracket) {
        lemma_tp_tail_within(
            ts,
            i + 2,
            acc.push(Elem::Terminal(Token::LBracket)).push(Elem::Terminal(Token::RBracket)),
        );
    }
}

pub proof fn lemma_tp_within(ts: Seq<Token>, i: int)
    requires
        0 <= i <= ts.len(),
    ensures
        within(ts, i, parse_tp(ts, i), true),
        parse_tp(ts, i) matches Parsed::Found(f, _) ==> f is Tp,
{
    lemma_id_end(ts, i);
    if let Parsed::Found(f, j) = parse_id(ts, i) {
        lemma_tp_tail_within(ts, j, seq![Elem::Node(f)]);
    } else if let Some(t) = tok(ts, i) {
        lemma_tp_tail_within(ts, i + 1, seq![Elem::Terminal(t)]);
        lemma_id_end(ts, i + 1);
        if let Parsed::Found(f, j) = parse_id(ts, i + 1) {
            lemma_tp_tail_within(ts, j, seq![Elem::Terminal(Token::Struct), Elem::Node(f)]);
        }
    }
}

/// `n` pointer dereferences.
pub open spec fn derefs(n: nat) -> Seq<Elem> {
    Seq::new(n, |_k: int| Elem::Terminal(Token::PointerDeref))
}

/// A run of `n` stars extends a type by `n` pointer dereferences in one go.
pub proof fn lemma_tp_stars(ts: Seq<Token>, i: int, acc: Seq<Elem>, n: nat)
    requires
        0 <= i,
        i + n <= ts.len(),
        forall|k: int| i <= k < i + n ==> ts[k] == Token::Mult,
    ensures
        tp_tail(ts, i, acc) == tp_tail(ts, i + n, acc + derefs(n)),
    decreases n,
{
    if n == 0 {
        assert(acc + derefs(0) =~= acc);
    } else {
        let next = acc.push(Elem::Terminal(Token::PointerDeref));
        lemma_tp_stars(ts, i + 1, next, (n - 1) as nat);
        assert(next + derefs((n - 1) as nat) =~= acc + derefs(n));
    }
}

/// However long the chain, a primitive type followed by `n` stars parses, in
/// one step of the grammar, to one type that holds the primitive and `n`
/// pointer dereferences, and stops right after the last star.
pub proof fn lemma_tp_pointer_chain(ts: Seq<Token>, i: int, n: nat)
    requires
        0 <= i,
        i + 1 + n <= ts.len(),
        primitive_types().contains(ts[i]),
        forall|k: int| i < k <= i + n ==> ts[k] == Token::Mult,
        tok(ts, i + 1 + n) != Some(Token::Mult),
        tok(ts, i + 1 + n) != Some(Token::LBracket),
    ensures
        parse_tp(ts, i) == Parsed::Found(
            Frag::Tp(seq![Elem::Terminal(ts[i])] + derefs(n)),
            i + 1 + n,
        ),
{
    assert(!(ts[i] is Undefined));
    assert(id_end(ts, i) == i);
    lemma_tp_stars(ts, i + 1, seq![Elem::Terminal(ts[i])], n);
}


/// The tokens of a chain of type suffixes: `true` stands for `*`, `false`
/// for `[ ]`.
pub open spec fn suffix_tokens(sfx: Seq<bool>) -> Seq<Token>
    decreases sfx.len(),
{
    if sfx.len() == 0 {
        Seq::empty()
    } else {
        (if sfx[0] {
            seq![Token::Mult]
        } else {
            seq![Token::LBracket, Token::RBracket]
        }) + suffix_tokens(sfx.drop_first())
    }
}

/// The elements that a chain of type suffixes adds, in order.
pub open spec fn suffix_elems(sfx: Seq<bool>) -> Seq<Elem>
    decreases sfx.len(),
{
    if sfx.len() == 0 {
        Seq::empty()
    } else {
        (if sfx[0] {
            seq![Elem::Terminal(Token::PointerDeref)]
        } else {
            seq![Elem::Terminal(Token::LBracket), Elem::Terminal(Token::RBracket)]
        }) + suffix_elems(sfx.drop_first())
    }
}

/// A chain of `*` and `[ ]` suffixes, in any interleaving, extends a type by
/// its elements in order.
pub proof fn lemma_tp_suffixes(ts: Seq<Token>, i: int, acc: Seq<Elem>, sfx: Seq<bool>)
    requires
        0 <= i,
        i + suffix_tokens(sfx).len() <= ts.len(),
        ts.subrange(i, i + suffix_tokens(sfx).len()) == suffix_tokens(sfx),
    ensures
        tp_tail(ts, i, acc) == tp_tail(ts, i + suffix_tokens(sfx).len(), acc + suffix_elems(sfx)),
    decreases sfx.len(),
{
    let n = suffix_tokens(sfx).len();
    if sfx.len() == 0 {
        assert(acc + suffix_elems(sfx) =~= acc);
    } else {
        let rest = sfx.drop_first();
        let m = suffix_tokens(rest).len();
        if sfx[0] {
            assert(ts.subrange(i, i + n)[0] == ts[i]);
            assert(ts.subrange(i + 1, i + 1 + m) =~= ts.subrange(i, i + n).subrange(1, n as int));
            assert(ts.subrange(i, i + n).subrange(1, n as int) =~= suffix_tokens(rest));
            let next = acc.push(Elem::Terminal(Token::PointerDeref));
            lemma_tp_suffixes(ts, i + 1, next, rest);
            assert(next + suffix_elems(rest) =~= acc + suffix_elems(sfx));
        } else {
            assert(ts.subrange(i, i + n)[0] == ts[i]);
            assert(ts.subrange(i, i + n)[1] == ts[i + 1]);
            assert(ts.subrange(i + 2, i + 2 + m) =~= ts.subrange(i, i + n).subrange(2, n as int));
            assert(ts.subrange(i, i + n).subrange(2, n as int) =~= suffix_tokens(rest));
            let next = acc.push(Elem::Terminal(Token::LBracket)).push(Elem::Terminal(Token::RBracket));
            lemma_tp_suffixes(ts, i + 2, next, rest);
            assert(next + suffix_elems(rest) =~= acc + suffix_elems(sfx));
        }
    }
}

/// A primitive type followed by any chain of `*` and `[ ]` suffixes, up to
/// the end of the stream, parses to one type that holds the primitive and
/// the suffixes' elements in order, and takes every token.
pub proof fn lemma_tp_suffix_chain(p: Token, sfx: Seq<bool>)
    requires
        primitive_types().contains(p),
    ensures
        parse_tp(seq![p] + suffix_tokens(sfx), 0) == Parsed::Found(
            Frag::Tp(seq![Elem::Terminal(p)] + suffix_elems(sfx)),
            1 + suffix_tokens(sfx).len() as int,
        ),
{
    let ts = seq![p] + suffix_tokens(sfx);
    assert(ts[0] == p);
    assert(!(ts[0] is Undefined));
    assert(id_end(ts, 0) == 0);
    assert(ts.subrange(1, 1 + suffix_tokens(sfx).len() as int) =~= suffix_tokens(sfx));
    lemma_tp_suffixes(ts, 1, seq![Elem::Terminal(p)], sfx);
}

// ---------------------------------------------------------------------------
// Expressions
// ---------------------------------------------------------------------------

/// A sub-rule that started at `i` stopped at `j`, after `i` and within the
/// stream. This always holds (see [`lemma_exp_within`]); the definitions
/// below test it only so that their recursion visibly ends.
pub open spec fn advanced(ts: Seq<Token>, i: int, j: int) -> bool {
    i < j <= ts.len()
}

/// `<exp>`: a general expression, as one flat `Expr` whose elements keep the
/// source order.
///
/// The left-recursive productions of the grammar are removed: a base
/// expression (a number, an identifier or a call, a unary operator with its
/// operand, or one of [`exp_token_base`]) is followed by any number of
/// extensions (see [`exp_tail`]).
pub open spec fn parse_exp(ts: Seq<Token>, i: int) -> Parsed
    decreases ts.len() - i, 3nat,
{
    if !(0 <= i <= ts.len()) {
        Parsed::Absent
    } else {
        match parse_num(ts, i) {
            Parsed::Found(n, j) => if advanced(ts, i, j) {
                exp_tail(ts, j, seq![Elem::Node(n)])
            } else {
                Parsed::Absent
            },
            _ => match parse_id(ts, i) {
                Parsed::Found(f, j) => if !advanced(ts, i, j) {
                    Parsed::Absent
                } else if tok(ts, j) == Some(Token::LParen) {
                    call_args(
                        ts,
                        j + 1,
                        seq![Elem::Node(f), Elem::Terminal(Token::LParen)],
                        false,
                    )
                } else {
                    exp_tail(ts, j, seq![Elem::Node(f)])
                },
                _ => match parse_unop(ts, i) {
                    Parsed::Found(u, j) => if !advanced(ts, i, j) {
                        Parsed::Absent
                    } else {
                        match parse_exp(ts, j) {
                            Parsed::Found(e, k) => if advanced(ts, j, k) {
                                exp_tail(ts, k, seq![Elem::Node(u)] + spliced(e))
                            } else {
                                Parsed::Absent
                            },
                            Parsed::Absent => Parsed::Broken(Production::UnaryOperand, j),
                            broken => broken,
                        }
                    },
                    _ => exp_token_base(ts, i),
                },
            },
        }
    }
}

/// The base expressions that start with a fixed token: `( <exp> )`, `true`,
/// `false`, `NULL`, `alloc ( <tp> )` and `alloc_array ( <tp> , <exp> )`,
/// each followed by its extensions.
pub open spec fn exp_token_base(ts: Seq<Token>, i: int) -> Parsed
    decreases ts.len() - i, 2nat,
{
    match tok(ts, i) {
        Some(Token::LParen) => match parse_exp(ts, i + 1) {
            Parsed::Found(e, j) => if !advanced(ts, i + 1, j) {
                Parsed::Absent
            } else if tok(ts, j) == Some(Token::RParen) {
                exp_tail(
                    ts,
                    j + 1,
                    (seq![Elem::Terminal(Token::LParen)] + spliced(e)).push(
                        Elem::Terminal(Token::RParen),
                    ),
                )
            } else {
                Parsed::Broken(Production::Parenthesised, j)
            },
            Parsed::Absent => Parsed::Broken(Production::Parenthesised, i + 1),
            broken => broken,
        },
        Some(Token::True) => exp_tail(ts, i + 1, seq![Elem::Terminal(Token::True)]),
        Some(Token::False) => exp_tail(ts, i + 1, seq![Elem::Terminal(Token::False)]),
        Some(Token::Null) => exp_tail(ts, i + 1, seq![Elem::Terminal(Token::Null)]),
        Some(Token::Alloc) => if tok(ts, i + 1) != Some(Token::LParen) {
            Parsed::Broken(Production::Alloc, i + 1)
        } else {
            match parse_tp(ts, i + 2) {
                Parsed::Found(tp, j) => if !advanced(ts, i + 2, j) {
                    Parsed::Absent
                } else if tok(ts, j) == Some(Token::RParen) {
                    exp_tail(
                        ts,
                        j + 1,
                        seq![
                            Elem::Terminal(Token::Alloc),
                            Elem::Terminal(Token::LParen),
                            Elem::Node(tp),
                            Elem::Terminal(Token::RParen),
                        ],
                    )
                } else {
                    Parsed::Broken(Production::Alloc, j)
                },
                Parsed::Absent => Parsed::Broken(Production::Alloc, i + 2),
                broken => broken,
            }
        },
        Some(Token::AllocArray) => if tok(ts, i + 1) != Some(Token::LParen) {
            Parsed::Broken(Production::AllocArray, i + 1)
        } else {
            match parse_tp(ts, i + 2) {
                Parsed::Found(tp, j) => if !advanced(ts, i + 2, j) {
                    Parsed::Absent
                } else if tok(ts, j) != Some(Token::Comma) {
                    Parsed::Broken(Production::AllocArray, j)
                } else {
                    match parse_exp(ts, j + 1) {
                        Parsed::Found(e, k) => if !advanced(ts, j + 1, k) {
                            Parsed::Absent
                        } else if tok(ts, k) == Some(Token::RParen) {
                            exp_tail(
                                ts,
                                k + 1,
                                (seq![
                                    Elem::Terminal(Token::AllocArray),
                                    Elem::Terminal(Token::LParen),
                                    Elem::Node(tp),
                                    Elem::Terminal(Token::Comma),
                                ] + spliced(e)).push(Elem::Terminal(Token::RParen)),
                            )
                        } else {
                            Parsed::Broken(Production::AllocArray, k)
                        },
                        Parsed::Absent => Parsed::Broken(Production::AllocArray, j + 1),
                        broken => broken,
                    }
                },
                Parsed::Absent => Parsed::Broken(Production::AllocArray, i + 2),
                broken => broken,
            }
        },
        _ => Parsed::Absent,
    }
}

/// The arguments of a call, from `i` on, after the elements `acc`: each
/// argument is an expression, they are separated by `,`, and `)` ends them.
/// `need` holds right after a `,`, where an argument must follow.
pub open spec fn call_args(ts: Seq<Token>, i: int, acc: Seq<Elem>, need: bool) -> Parsed
    decreases ts.len() - i, 4nat,
{
    match parse_exp(ts, i) {
        Parsed::Found(e, j) => if !advanced(ts, i, j) {
            Parsed::Absent
        } else if tok(ts, j) == Some(Token::Comma) {
            call_args(ts, j + 1, (acc + spliced(e)).push(Elem::Terminal(Token::Comma)), true)
        } else if tok(ts, j) == Some(Token::RParen) {
            exp_tail(ts, j + 1, (acc + spliced(e)).push(Elem::Terminal(Token::RParen)))
        } else {
            Parsed::Broken(Production::Call, j)
        },
        Parsed::Absent => if need {
            Parsed::Broken(Production::Call, i)
        } else if tok(ts, i) == Some(Token::RParen) {
            exp_tail(ts, i + 1, acc.push(Elem::Terminal(Token::RParen)))
        } else {
            Parsed::Broken(Production::Call, i)
        },
        broken => broken,
    }
}

/// The extensions of an expression whose elements so far are `acc`: a field
/// select or dereference with its field name, a ternary `? <exp> : <exp>`, an
/// index `[ <exp> ]`, or a binary operator with its right operand. Anything
/// else ends the expression.
pub open spec fn exp_tail(ts: Seq<Token>, i: int, acc: Seq<Elem>) -> Parsed
    decreases ts.len() - i, 0nat,
{
    match tok(ts, i) {
        Some(t) => if t == Token::FieldSelect || t == Token::FieldDeref {
            match parse_id(ts, i + 1) {
                Parsed::Found(f, j) => if advanced(ts, i + 1, j) {
                    exp_tail(ts, j, acc.push(Elem::Terminal(t)).push(Elem::Node(f)))
                } else {
                    Parsed::Absent
                },
                _ => Parsed::Broken(Production::FieldAccess, i + 1),
            }
        } else if t == Token::TernIf {
            match parse_exp(ts, i + 1) {
                Parsed::Found(m, j) => if !advanced(ts, i + 1, j) {
                    Parsed::Absent
                } else if tok(ts, j) != Some(Token::TernElse) {
                    Parsed::Broken(Production::Ternary, j)
                } else {
                    match parse_exp(ts, j + 1) {
                        Parsed::Found(e, k) => if advanced(ts, j + 1, k) {
                            exp_tail(
                                ts,
                                k,
                                (acc.push(Elem::Terminal(Token::TernIf)) + spliced(m)).push(
                                    Elem::Terminal(Token::TernElse),
                                ) + spliced(e),
                            )
                        } else {
                            Parsed::Absent
                        },
                        Parsed::Absent => Parsed::Broken(Production::Ternary, j + 1),
                        broken => broken,
                    }
                },
                Parsed::Absent => Parsed::Broken(Production::Ternary, i + 1),
                broken => broken,
            }
        } else if t == Token::LBracket {
            match parse_exp(ts, i + 1) {
                Parsed::Found(e, j) => if !advanced(ts, i + 1, j) {
                    Parsed::Absent
                } else if tok(ts, j) == Some(Token::RBracket) {
                    exp_tail(
                        ts,
                        j + 1,
                        (acc.push(Elem::Terminal(Token::LBracket)) + spliced(e)).push(
                            Elem::Terminal(Token::RBracket),
                        ),
                    )
                } else {
                    Parsed::Broken(Production::Index, j)
                },
                Parsed::Absent => Parsed::Broken(Production::Index, i + 1),
                broken => broken,
            }
        } else if infix_tokens().contains(t) {
            match parse_exp(ts, i + 1) {
                Parsed::Found(e, j) => if advanced(ts, i + 1, j) {
                    exp_tail(ts, j, acc.push(Elem::Terminal(t)) + spliced(e))
                } else {
                    Parsed::Absent
                },
                Parsed::Absent => Parsed::Broken(Production::BinaryOperand, i + 1),
                broken => broken,
            }
        } else {
            Parsed::Found(Frag::Expr(acc), i)
        },
        None => Parsed::Found(Frag::Expr(acc), i),
    }
}

/// Every expression rule stops within the stream, and a found expression
/// ends after where it started.
pub proof fn lemma_exp_within(ts: Seq<Token>, i: int)
    requires
        0 <= i <= ts.len(),
    ensures
        within(ts, i, parse_exp(ts, i), true),
    decreases ts.len() - i, 3nat,
{
    lemma_id_end(ts, i);
    if let Parsed::Found(n, j) = parse_num(ts, i) {
        lemma_exp_tail_within(ts, j, seq![Elem::Node(n)]);
    } else if let Parsed::Found(f, j) = parse_id(ts, i) {
        if tok(ts, j) == Some(Token::LParen) {
            lemma_call_args_within(ts, j + 1, seq![Elem::Node(f), Elem::Terminal(Token::LParen)], false);
        } else {
            lemma_exp_tail_within(ts, j, seq![Elem::Node(f)]);
        }
    } else if let Parsed::Found(u, j) = parse_unop(ts, i) {
        lemma_exp_within(ts, j);
        if let Parsed::Found(e, k) = parse_exp(ts, j) {
            lemma_exp_tail_within(ts, k, seq![Elem::Node(u)] + spliced(e));
        }
    } else {
        lemma_token_base_within(ts, i);
    }
}

pub proof fn lemma_token_base_within(ts: Seq<Token>, i: int)
    requires
        0 <= i <= ts.len(),
    ensures
        within(ts, i, exp_token_base(ts, i), true),
    decreases ts.len() - i, 2nat,
{
    match tok(ts, i) {
        Some(Token::LParen) => {
            lemma_exp_within(ts, i + 1);
            if let Parsed::Found(e, j) = parse_exp(ts, i + 1) {
                if tok(ts, j) == Some(Token::RParen) {
                    lemma_exp_tail_within(
                        ts,
                        j + 1,
                        (seq![Elem::Terminal(Token::LParen)] + spliced(e)).push(
                            Elem::Terminal(Token::RParen),
                        ),
                    );
                }
            }
        },
        Some(Token::True) => lemma_exp_tail_within(ts, i + 1, seq![Elem::Terminal(Token::True)]),
        Some(Token::False) => lemma_exp_tail_within(ts, i + 1, seq![Elem::Terminal(Token::False)]),
        Some(Token::Null) => lemma_exp_tail_within(ts, i + 1, seq![Elem::Terminal(Token::Null)]),
        Some(Token::Alloc) => {
            if tok(ts, i + 1) == Some(Token::LParen) {
                lemma_tp_within(ts, i + 2);
                if let Parsed::Found(tp, j) = parse_tp(ts, i + 2) {
                    if tok(ts, j) == Some(Token::RParen) {
                        lemma_exp_tail_within(
                            ts,
                            j + 1,
                            seq![
                                Elem::Terminal(Token::Alloc),
                                Elem::Terminal(Token::LParen),
                                Elem::Node(tp),
                                Elem::Terminal(Token::RParen),
                            ],
                        );
                    }
                }
            }
        },
        Some(Token::AllocArray) => {
            if tok(ts, i + 1) == Some(Token::LParen) {
                lemma_tp_within(ts, i + 2);
                if let Parsed::Found(tp, j) = parse_tp(ts, i + 2) {
                    if tok(ts, j) == Some(Token::Comma) {
                        lemma_exp_within(ts, j + 1);
                        if let Parsed::Found(e, k) = parse_exp(ts, j + 1) {
                            if tok(ts, k) == Some(Token::RParen) {
                                lemma_exp_tail_within(
                                    ts,
                                    k + 1,
                                    (seq![
                                        Elem::Terminal(Token::AllocArray),
                                        Elem::Terminal(Token::LParen),
                                        Elem::Node(tp),
                                        Elem::Terminal(Token::Comma),
                                    ] + spliced(e)).push(Elem::Terminal(Token::RParen)),
                                );
                            }
                        }
                    }
                }
            }
        },
        _ => {},
    }
}

pub proof fn lemma_call_args_within(ts: Seq<Token>, i: int, acc: Seq<Elem>, need: bool)
    requires
        0 <= i <= ts.len(),
    ensures
        within(ts, i, call_args(ts, i, acc, need), false),
        !(call_args(ts, i, acc, need) is Absent),
    decreases ts.len() - i, 4nat,
{
    lemma_exp_within(ts, i);
    match parse_exp(ts, i) {
        Parsed::Found(e, j) => {
            if tok(ts, j) == Some(Token::Comma) {
                lemma_call_args_within(ts, j + 1, (acc + spliced(e)).push(Elem::Terminal(Token::Comma)), true);
            } else if tok(ts, j) == Some(Token::RParen) {
                lemma_exp_tail_within(ts, j + 1, (acc + spliced(e)).push(Elem::Terminal(Token::RParen)));
            }
        },
        Parsed::Absent => {
            if !need && tok(ts, i) == Some(Token::RParen) {
                lemma_exp_tail_within(ts, i + 1, acc.push(Elem::Terminal(Token::RParen)));
            }
        },
        _ => {},
    }
}

pub proof fn lemma_exp_tail_within(ts: Seq<Token>, i: int, acc: Seq<Elem>)
    requires
        0 <= i <= ts.len(),
    ensures
        within(ts, i, exp_tail(ts, i, acc), false),
        !(exp_tail(ts, i, acc) is Absent),
    decreases ts.len() - i, 0nat,
{
    if let Some(t) = tok(ts, i) {
        if t == Token::FieldSelect || t == Token::FieldDeref {
            lemma_id_end(ts, i + 1);
            if let Parsed::Found(f, j) = parse_id(ts, i + 1) {
                lemma_exp_tail_within(ts, j, acc.push(Elem::Terminal(t)).push(Elem::Node(f)));
            }
        } else if t == Token::TernIf {
            lemma_exp_within(ts, i + 1);
            if let Parsed::Found(m, j) = parse_exp(ts, i + 1) {
                if tok(ts, j) == Some(Token::TernElse) {
                    lemma_exp_within(ts, j + 1);
                    if let Parsed::Found(e, k) = parse_exp(ts, j + 1) {
                        lemma_exp_tail_within(
                            ts,
                            k,
                            (acc.push(Elem::Terminal(Token::TernIf)) + spliced(m)).push(
                                Elem::Terminal(Token::TernElse),
                            ) + spliced(e),
                        );
                    }
                }
            }
        } else if t == Token::LBracket {
            lemma_exp_within(ts, i + 1);
            if let Parsed::Found(e, j) = parse_exp(ts, i + 1) {
                if tok(ts, j) == Some(Token::RBracket) {
                    lemma_exp_tail_within(
                        ts,
                        j + 1,
                        (acc.push(Elem::Terminal(Token::LBracket)) + spliced(e)).push(
                            Elem::Terminal(Token::RBracket),
                        ),
                    );
                }
            }
        } else if infix_tokens().contains(t) {
            lemma_exp_within(ts, i + 1);
            if let Parsed::Found(e, j) = parse_exp(ts, i + 1) {
                lemma_exp_tail_within(ts, j, acc.push(Elem::Terminal(t)) + spliced(e));
            }
        }
    }
}


/// The tokens of `a + a + ... + a` with `n` additions.
pub open spec fn plus_chain_tokens(a: Token, n: nat) -> Seq<Token>
    decreases n,
{
    if n == 0 {
        seq![a]
    } else {
        seq![a, Token::Plus] + plus_chain_tokens(a, (n - 1) as nat)
    }
}

/// The elements of `a + a + ... + a` with `n` additions: the identifier `a`
/// and `+` alternating, in source order.
pub open spec fn plus_chain_elems(a: Token, n: nat) -> Seq<Elem>
    decreases n,
{
    if n == 0 {
        seq![Elem::Node(Frag::Id(seq![a]))]
    } else {
        seq![Elem::Node(Frag::Id(seq![a])), Elem::Terminal(Token::Plus)] + plus_chain_elems(
            a,
            (n - 1) as nat,
        )
    }
}

pub proof fn lemma_plus_chain_len(a: Token, n: nat)
    ensures
        plus_chain_tokens(a, n).len() == 2 * n + 1,
        plus_chain_elems(a, n).len() == 2 * n + 1,
    decreases n,
{
    if n > 0 {
        lemma_plus_chain_len(a, (n - 1) as nat);
    }
}

proof fn lemma_plus_chain_at(ts: Seq<Token>, i: int, a: Token, n: nat)
    requires
        a is Undefined,
        0 <= i <= ts.len(),
        ts.subrange(i, ts.len() as int) == plus_chain_tokens(a, n),
    ensures
        parse_exp(ts, i) == Parsed::Found(Frag::Expr(plus_chain_elems(a, n)), ts.len() as int),
    decreases n,
{
    let rest = ts.subrange(i, ts.len() as int);
    lemma_plus_chain_len(a, n);
    assert(rest[0] == ts[i]);
    assert(ts[i] == a);
    assert(ts.subrange(i, i + 1) =~= seq![a]);
    let node = seq![Elem::Node(Frag::Id(seq![a]))];
    assert(parse_num(ts, i) is Absent);
    if n == 0 {
        assert(id_end(ts, i + 1) == i + 1);
        assert(id_end(ts, i) == i + 1);
        assert(parse_id(ts, i) == Parsed::Found(Frag::Id(seq![a]), i + 1));
        assert(exp_tail(ts, i + 1, node) == Parsed::Found(Frag::Expr(node), i + 1));
    } else {
        assert(rest[1] == ts[i + 1]);
        assert(ts[i + 1] == Token::Plus);
        assert(id_end(ts, i + 1) == i + 1);
        assert(id_end(ts, i) == i + 1);
        assert(infix_tokens()[3] == Token::Plus);
        let m = (n - 1) as nat;
        assert(ts.subrange(i + 2, ts.len() as int) =~= rest.subrange(2, rest.len() as int));
        assert(rest.subrange(2, rest.len() as int) =~= plus_chain_tokens(a, m));
        lemma_plus_chain_at(ts, i + 2, a, m);
        lemma_plus_chain_len(a, m);
        assert(parse_id(ts, i) == Parsed::Found(Frag::Id(seq![a]), i + 1));
        let acc = node.push(Elem::Terminal(Token::Plus));
        assert(spliced(Frag::Expr(plus_chain_elems(a, m))) == plus_chain_elems(a, m));
        assert(exp_tail(ts, ts.len() as int, acc + plus_chain_elems(a, m)) == Parsed::Found(
            Frag::Expr(acc + plus_chain_elems(a, m)),
            ts.len() as int,
        ));
        assert(exp_tail(ts, i + 1, node) == exp_tail(ts, ts.len() as int, acc + plus_chain_elems(a, m)));
        assert(acc + plus_chain_elems(a, m) =~= plus_chain_elems(a, n));
    }
}

/// However many additions it holds, `a + a + ... + a` parses, taking every
/// token, to one flat expression whose elements are the identifier `a` and
/// `+` alternating in source order.
pub proof fn lemma_plus_chain(a: Token, n: nat)
    requires
        a is Undefined,
    ensures
        parse_exp(plus_chain_tokens(a, n), 0) == Parsed::Found(
            Frag::Expr(plus_chain_elems(a, n)),
            2 * n + 1 as int,
        ),
        plus_chain_elems(a, n).len() == 2 * n + 1,
{
    let ts = plus_chain_tokens(a, n);
    lemma_plus_chain_len(a, n);
    assert(ts.subrange(0, ts.len() as int) =~= ts);
    lemma_plus_chain_at(ts, 0, a, n);
}

// ---------------------------------------------------------------------------
// Flat expressions
// ---------------------------------------------------------------------------

/// No element of `es` is itself an expression.
pub open spec fn flat(es: Seq<Elem>) -> bool {
    forall|k: int| 0 <= k < es.len() ==> !(#[trigger] es[k] matches Elem::Node(Frag::Expr(_)))
}

/// A found result is a flat expression.
pub open spec fn flat_result(p: Parsed) -> bool {
    p matches Parsed::Found(f, _) ==> (f is Expr && flat(f->Expr_0))
}

pub proof fn lemma_flat_concat(a: Seq<Elem>, b: Seq<Elem>)
    requires
        flat(a),
        flat(b),
    ensures
        flat(a + b),
{
    assert forall|k: int| 0 <= k < (a + b).len() implies !(#[trigger] (a + b)[k] matches Elem::Node(
        Frag::Expr(_),
    )) by {
        if k >= a.len() {
            assert((a + b)[k] == b[k - a.len()]);
        }
    }
}

pub proof fn lemma_flat_spliced(e: Frag)
    requires
        e is Expr ==> flat(e->Expr_0),
    ensures
        flat(spliced(e)),
{
}

/// Expressions are flat: every expression that parses is one `Expr` none of
/// whose elements is itself an expression; operands, indices, arguments and
/// parenthesised sub-expressions are spliced in, in source order.
pub proof fn lemma_exp_flat(ts: Seq<Token>, i: int)
    requires
        0 <= i <= ts.len(),
    ensures
        flat_result(parse_exp(ts, i)),
    decreases ts.len() - i, 3nat,
{
    lemma_id_end(ts, i);
    if let Parsed::Found(n, j) = parse_num(ts, i) {
        lemma_exp_tail_flat(ts, j, seq![Elem::Node(n)]);
    } else if let Parsed::Found(f, j) = parse_id(ts, i) {
        if tok(ts, j) == Some(Token::LParen) {
            lemma_call_args_flat(ts, j + 1, seq![Elem::Node(f), Elem::Terminal(Token::LParen)], false);
        } else {
            lemma_exp_tail_flat(ts, j, seq![Elem::Node(f)]);
        }
    } else if let Parsed::Found(u, j) = parse_unop(ts, i) {
        lemma_exp_within(ts, j);
        lemma_exp_flat(ts, j);
        if let Parsed::Found(e, k) = parse_exp(ts, j) {
            if advanced(ts, j, k) {
                lemma_flat_spliced(e);
                lemma_flat_concat(seq![Elem::Node(u)], spliced(e));
                lemma_exp_tail_flat(ts, k, seq![Elem::Node(u)] + spliced(e));
            }
        }
    } else {
        lemma_token_base_flat(ts, i);
    }
}

pub proof fn lemma_token_base_flat(ts: Seq<Token>, i: int)
    requires
        0 <= i <= ts.len(),
    ensures
        flat_result(exp_token_base(ts, i)),
    decreases ts.len() - i, 2nat,
{
    match tok(ts, i) {
        Some(Token::LParen) => {
            lemma_exp_within(ts, i + 1);
            lemma_exp_flat(ts, i + 1);
            if let Parsed::Found(e, j) = parse_exp(ts, i + 1) {
                if tok(ts, j) == Some(Token::RParen) {
                    lemma_flat_spliced(e);
                    lemma_flat_concat(seq![Elem::Terminal(Token::LParen)], spliced(e));
                    lemma_exp_tail_flat(
                        ts,
                        j + 1,
                        (seq![Elem::Terminal(Token::LParen)] + spliced(e)).push(
                            Elem::Terminal(Token::RParen),
                        ),
                    );
                }
            }
        },
        Some(Token::True) => lemma_exp_tail_flat(ts, i + 1, seq![Elem::Terminal(Token::True)]),
        Some(Token::False) => lemma_exp_tail_flat(ts, i + 1, seq![Elem::Terminal(Token::False)]),
        Some(Token::Null) => lemma_exp_tail_flat(ts, i + 1, seq![Elem::Terminal(Token::Null)]),
        Some(Token::Alloc) => {
            if tok(ts, i + 1) == Some(Token::LParen) {
                lemma_tp_within(ts, i + 2);
                if let Parsed::Found(tp, j) = parse_tp(ts, i + 2) {
                    if tok(ts, j) == Some(Token::RParen) {
                        lemma_exp_tail_flat(
                            ts,
                            j + 1,
                            seq![
                                Elem::Terminal(Token::Alloc),
                                Elem::Terminal(Token::LParen),
                                Elem::Node(tp),
                                Elem::Terminal(Token::RParen),
                            ],
                        );
                    }
                }
            }
        },
        Some(Token::AllocArray) => {
            if tok(ts, i + 1) == Some(Token::LParen) {
                lemma_tp_within(ts, i + 2);
                if let Parsed::Found(tp, j) = parse_tp(ts, i + 2) {
                    if tok(ts, j) == Some(Token::Comma) {
                        lemma_exp_within(ts, j + 1);
                        lemma_exp_flat(ts, j + 1);
                        if let Parsed::Found(e, k) = parse_exp(ts, j + 1) {
                            if tok(ts, k) == Some(Token::RParen) {
                                let head = seq![
                                    Elem::Terminal(Token::AllocArray),
                                    Elem::Terminal(Token::LParen),
                                    Elem::Node(tp),
                                    Elem::Terminal(Token::Comma),
                                ];
                                lemma_flat_spliced(e);
                                lemma_flat_concat(head, spliced(e));
                                lemma_exp_tail_flat(
                                    ts,
                                    k + 1,
                                    (head + spliced(e)).push(Elem::Terminal(Token::RParen)),
                                );
                            }
                        }
                    }
                }
            }
        },
        _ => {},
    }
}

pub proof fn lemma_call_args_flat(ts: Seq<Token>, i: int, acc: Seq<Elem>, need: bool)
    requires
        0 <= i <= ts.len(),
        flat(acc),
    ensures
        flat_result(call_args(ts, i, acc, need)),
    decreases ts.len() - i, 4nat,
{
    lemma_exp_within(ts, i);
    lemma_exp_flat(ts, i);
    match parse_exp(ts, i) {
        Parsed::Found(e, j) => {
            lemma_flat_spliced(e);
            lemma_flat_concat(acc, spliced(e));
            if tok(ts, j) == Some(Token::Comma) {
                lemma_call_args_flat(ts, j + 1, (acc + spliced(e)).push(Elem::Terminal(Token::Comma)), true);
            } else if tok(ts, j) == Some(Token::RParen) {
                lemma_exp_tail_flat(ts, j + 1, (acc + spliced(e)).push(Elem::Terminal(Token::RParen)));
            }
        },
        Parsed::Absent => {
            if !need && tok(ts, i) == Some(Token::RParen) {
                lemma_exp_tail_flat(ts, i + 1, acc.push(Elem::Terminal(Token::RParen)));
            }
        },
        _ => {},
    }
}

pub proof fn lemma_exp_tail_flat(ts: Seq<Token>, i: int, acc: Seq<Elem>)
    requires
        0 <= i <= ts.len(),
        flat(acc),
    ensures
        flat_result(exp_tail(ts, i, acc)),
    decreases ts.len() - i, 0nat,
{
    if let Some(t) = tok(ts, i) {
        if t == Token::FieldSelect || t == Token::FieldDeref {
            lemma_id_end(ts, i + 1);
            if let Parsed::Found(f, j) = parse_id(ts, i + 1) {
                lemma_exp_tail_flat(ts, j, acc.push(Elem::Terminal(t)).push(Elem::Node(f)));
            }
        } else if t == Token::TernIf {
            lemma_exp_within(ts, i + 1);
            lemma_exp_flat(ts, i + 1);
            if let Parsed::Found(m, j) = parse_exp(ts, i + 1) {
                if tok(ts, j) == Some(Token::TernElse) {
                    lemma_exp_within(ts, j + 1);
                    lemma_exp_flat(ts, j + 1);
                    if let Parsed::Found(e, k) = parse_exp(ts, j + 1) {
                        if advanced(ts, j + 1, k) {
                            lemma_flat_spliced(m);
                            lemma_flat_spliced(e);
                            let a1 = acc.push(Elem::Terminal(Token::TernIf));
                            lemma_flat_concat(a1, spliced(m));
                            let a2 = (a1 + spliced(m)).push(Elem::Terminal(Token::TernElse));
                            lemma_flat_concat(a2, spliced(e));
                            lemma_exp_tail_flat(ts, k, a2 + spliced(e));
                        }
                    }
                }
            }
        } else if t == Token::LBracket {
            lemma_exp_within(ts, i + 1);
            lemma_exp_flat(ts, i + 1);
            if let Parsed::Found(e, j) = parse_exp(ts, i + 1) {
                if tok(ts, j) == Some(Token::RBracket) {
                    lemma_flat_spliced(e);
                    let a1 = acc.push(Elem::Terminal(Token::LBracket));
                    lemma_flat_concat(a1, spliced(e));
                    lemma_exp_tail_flat(ts, j + 1, (a1 + spliced(e)).push(Elem::Terminal(Token::RBracket)));
                }
            }
        } else if infix_tokens().contains(t) {
            lemma_exp_within(ts, i + 1);
            lemma_exp_flat(ts, i + 1);
            if let Parsed::Found(e, j) = parse_exp(ts, i + 1) {
                if advanced(ts, i + 1, j) {
                    lemma_flat_spliced(e);
                    let a1 = acc.push(Elem::Terminal(t));
                    lemma_flat_concat(a1, spliced(e));
                    lemma_exp_tail_flat(ts, j, a1 + spliced(e));
                }
            }
        }
    }
}

// ---------------------------------------------------------------------------
// Literals between markers
// ---------------------------------------------------------------------------

/// The first position at or after `i` that holds `close`, or the end of the
/// stream.
pub open spec fn close_at(ts: Seq<Token>, i: int, close: Token) -> int
    decreases ts.len() - i,
{
    if 0 <= i < ts.len() && ts[i] != close {
        close_at(ts, i + 1, close)
    } else {
        i
    }
}

/// A run of raw tokens between an `open` marker and the next `close` marker,
/// wrapped by `wrap`; a hard error for `production` at the end of the stream
/// where no `close` follows.
pub open spec fn literal_run(
    ts: Seq<Token>,
    i: int,
    open: Token,
    close: Token,
    production: Production,
    wrap: spec_fn(Seq<Token>) -> Frag,
) -> Parsed {
    if tok(ts, i) != Some(open) {
        Parsed::Absent
    } else if close_at(ts, i + 1, close) < ts.len() {
        Parsed::Found(wrap(ts.subrange(i + 1, close_at(ts, i + 1, close))), close_at(ts, i + 1, close) + 1)
    } else {
        Parsed::Broken(production, ts.len() as int)
    }
}

/// `<strlit> ::= "<schar>*"`, as the raw tokens between the quotes.
pub open spec fn parse_strlit(ts: Seq<Token>, i: int) -> Parsed {
    literal_run(ts, i, Token::DQuoteMark, Token::DQuoteMark, Production::StringLiteral, |x| Frag::StrLit(x))
}

/// `<chrlit> ::= '<cchar>'`, as the raw tokens between the quotes.
pub open spec fn parse_chrlit(ts: Seq<Token>, i: int) -> Parsed {
    literal_run(ts, i, Token::QuoteMark, Token::QuoteMark, Production::CharLiteral, |x| Frag::ChrLit(x))
}

/// `<liblit> ::= <<lchar>*>`, as the raw tokens between the angle brackets.
pub open spec fn parse_liblit(ts: Seq<Token>, i: int) -> Parsed {
    literal_run(ts, i, Token::Lt, Token::Gt, Production::LibraryLiteral, |x| Frag::LibLit(x))
}

pub proof fn lemma_close_at(ts: Seq<Token>, i: int, close: Token)
    requires
        0 <= i <= ts.len(),
    ensures
        i <= close_at(ts, i, close) <= ts.len(),
        close_at(ts, i, close) < ts.len() ==> ts[close_at(ts, i, close)] == close,
    decreases ts.len() - i,
{
    if i < ts.len() && ts[i] != close {
        lemma_close_at(ts, i + 1, close);
    }
}

} // verus!
