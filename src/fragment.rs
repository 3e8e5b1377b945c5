//! Syntax fragments: the values that grammar rules hand back, and the merge
//! operation that combines them.
use vstd::prelude::*;
use crate::token::Token;

verus! {

broadcast use vstd::std_specs::vec::group_vec_axioms, vstd::seq::group_seq_axioms;

/// A parse result.
///
/// `StrLit`, `ChrLit` and `LibLit` hold the raw tokens between their quote or
/// angle markers.
/// `Tp` (type expression) and `Expr` (general expression) are composite: they
/// hold an ordered sequence of elements, each an embedded fragment or a raw
/// token. `Empty` is the identity of [`Fragment::merge`].
#[derive(Debug, PartialEq)]
pub enum Fragment {
    Empty,
    Id(Vec<Token>),
    Num(u32),
    StrLit(Vec<Token>),
    ChrLit(Vec<Token>),
    LibLit(Vec<Token>),
    Sep(Token),
    Unop(Token),
    Binop(Token),
    Asnop(Token),
    Postop(Token),
    Keyword(Token),
    Tp(Vec<Element>),
    Expr(Vec<Element>),
}

/// One element of a composite fragment.
#[derive(Debug, PartialEq)]
pub enum Element {
    Node(Fragment),
    Terminal(Token),
}

/// The mathematical value of a [`Fragment`].
pub enum Frag {
    Empty,
    Id(Seq<Token>),
    Num(u32),
    StrLit(Seq<Token>),
    ChrLit(Seq<Token>),
    LibLit(Seq<Token>),
    Sep(Token),
    Unop(Token),
    Binop(Token),
    Asnop(Token),
    Postop(Token),
    Keyword(Token),
    Tp(Seq<Elem>),
    Expr(Seq<Elem>),
}

/// The mathematical value of an [`Element`].
pub enum Elem {
    Node(Frag),
    Terminal(Token),
}

impl Fragment {
    pub open spec fn view(&self) -> Frag
        decreases self, 1nat,
    {
        match self {
            Fragment::Empty => Frag::Empty,
            Fragment::Id(v) => Frag::Id(v@),
            Fragment::Num(n) => Frag::Num(*n),
            Fragment::StrLit(v) => Frag::StrLit(v@),
            Fragment::ChrLit(v) => Frag::ChrLit(v@),
            Fragment::LibLit(v) => Frag::LibLit(v@),
            Fragment::Sep(t) => Frag::Sep(*t),
            Fragment::Unop(t) => Frag::Unop(*t),
            Fragment::Binop(t) => Frag::Binop(*t),
            Fragment::Asnop(t) => Frag::Asnop(*t),
            Fragment::Postop(t) => Frag::Postop(*t),
            Fragment::Keyword(t) => Frag::Keyword(*t),
            Fragment::Tp(v) => Frag::Tp(elems_view(v@)),
            Fragment::Expr(v) => Frag::Expr(elems_view(v@)),
        }
    }
}

impl Element {
    pub open spec fn view(&self) -> Elem
        decreases self, 2nat,
    {
        match self {
            Element::Node(f) => Elem::Node(f.view()),
            Element::Terminal(t) => Elem::Terminal(*t),
        }
    }
}

/// The values of a sequence of elements.
pub open spec fn elems_view(v: Seq<Element>) -> Seq<Elem>
    decreases v, 0nat,
{
    if v.len() == 0 {
        Seq::empty()
    } else {
        elems_view(v.drop_last()).push(v.last().view())
    }
}


pub open spec fn is_composite(f: Frag) -> bool {
    f is Tp || f is Expr
}

/// `merge(a, b)` is defined: one side is `Empty`, or `a` is composite.
pub open spec fn mergeable(a: Frag, b: Frag) -> bool {
    a is Empty || b is Empty || is_composite(a)
}

/// Combines two fragments: `Empty` on either side gives the other side; two
/// composites of the same kind concatenate their elements; any other
/// fragment merged into a composite is appended to it as one element.
/// Where `a` is neither `Empty` nor composite and `b` is not `Empty`, the
/// result is `a` (see [`mergeable`]).
pub open spec fn merge(a: Frag, b: Frag) -> Frag {
    if a is Empty {
        b
    } else if b is Empty {
        a
    } else {
        match (a, b) {
            (Frag::Tp(x), Frag::Tp(y)) => Frag::Tp(x + y),
            (Frag::Expr(x), Frag::Expr(y)) => Frag::Expr(x + y),
            (Frag::Tp(x), _) => Frag::Tp(x.push(Elem::Node(b))),
            (Frag::Expr(x), _) => Frag::Expr(x.push(Elem::Node(b))),
            _ => a,
        }
    }
}

pub proof fn lemma_elems_view_push(v: Seq<Element>, e: Element)
    ensures
        elems_view(v.push(e)) == elems_view(v).push(e.view()),
{
    assert(v.push(e).drop_last() =~= v);
}

pub proof fn lemma_elems_view_concat(a: Seq<Element>, b: Seq<Element>)
    ensures
        elems_view(a + b) == elems_view(a) + elems_view(b),
    decreases b.len(),
{
    if b.len() == 0 {
        assert(a + b =~= a);
        assert(elems_view(a) + elems_view(b) =~= elems_view(a));
    } else {
        lemma_elems_view_concat(a, b.drop_last());
        assert((a + b).drop_last() =~= a + b.drop_last());
        assert(elems_view(a) + elems_view(b) =~= (elems_view(a) + elems_view(b.drop_last())).push(
            b.last().view(),
        ));
    }
}

/// The elements that `f` adds when merged into an expression: its own
/// elements if it is an expression, none if it is `Empty`, and otherwise
/// itself as one element.
pub open spec fn spliced(f: Frag) -> Seq<Elem> {
    match f {
        Frag::Expr(x) => x,
        Frag::Empty => Seq::empty(),
        _ => seq![Elem::Node(f)],
    }
}

/// Merging into an expression appends what [`spliced`] gives.
pub proof fn lemma_merge_into_expr(x: Seq<Elem>, f: Frag)
    ensures
        merge(Frag::Expr(x), f) == Frag::Expr(x + spliced(f)),
{
    if f is Empty {
        assert(x + Seq::<Elem>::empty() =~= x);
    } else if !(f is Expr) {
        assert(x.push(Elem::Node(f)) =~= x + seq![Elem::Node(f)]);
    }
}

pub proof fn lemma_elems_view_single(e: Element)
    ensures
        elems_view(seq![e]) == seq![e.view()],
{
    let s = seq![e];
    assert(s.drop_last() =~= Seq::<Element>::empty());
    assert(s.last() == e);
    assert(elems_view(s.drop_last()) == Seq::<Elem>::empty());
    assert(elems_view(s) == elems_view(s.drop_last()).push(s.last().view()));
    assert(Seq::<Elem>::empty().push(e.view()) =~= seq![e.view()]);
}

impl Fragment {
    /// Appends the raw token `t` to this composite fragment, by merging in a
    /// fragment of the same kind that holds `t` alone.
    pub fn push_terminal(self, t: Token) -> (r: Fragment)
        requires
            is_composite(self@),
        ensures
            r@ == match self@ {
                Frag::Tp(x) => Frag::Tp(x.push(Elem::Terminal(t))),
                Frag::Expr(x) => Frag::Expr(x.push(Elem::Terminal(t))),
                _ => self@,
            },
    {
        let single: Vec<Element> = vec![Element::Terminal(t)];
        proof {
            lemma_elems_view_single(Element::Terminal(t));
            assert(single@ =~= seq![Element::Terminal(t)]);
        }
        let r = match self {
            Fragment::Tp(x) => Fragment::Tp(x).merge(Fragment::Tp(single)),
            other => other.merge(Fragment::Expr(single)),
        };
        proof {
            match self@ {
                Frag::Tp(x) => assert(x + seq![Elem::Terminal(t)] =~= x.push(Elem::Terminal(t))),
                Frag::Expr(x) => assert(x + seq![Elem::Terminal(t)] =~= x.push(Elem::Terminal(t))),
                _ => {},
            }
        }
        r
    }

    /// Merges `other` into this fragment (see [`merge`]).
    pub fn merge(self, other: Fragment) -> (r: Fragment)
        requires
            mergeable(self@, other@),
        ensures
            r@ == merge(self@, other@),
    {
        match self {
            Fragment::Empty => other,
            Fragment::Tp(mut x) => match other {
                Fragment::Empty => Fragment::Tp(x),
                Fragment::Tp(mut y) => {
                    proof {
                        lemma_elems_view_concat(x@, y@);
                    }
                    x.append(&mut y);
                    Fragment::Tp(x)
                },
                o => {
                    let e = Element::Node(o);
                    proof {
                        lemma_elems_view_push(x@, e);
                    }
                    x.push(e);
                    Fragment::Tp(x)
                },
            },
            Fragment::Expr(mut x) => match other {
                Fragment::Empty => Fragment::Expr(x),
                Fragment::Expr(mut y) => {
                    proof {
                        lemma_elems_view_concat(x@, y@);
                    }
                    x.append(&mut y);
                    Fragment::Expr(x)
                },
                o => {
                    let e = Element::Node(o);
                    proof {
                        lemma_elems_view_push(x@, e);
                    }
                    x.push(e);
                    Fragment::Expr(x)
                },
            },
            a => a,
        }
    }
}

// ---------------------------------------------------------------------------
// Laws of merge
// ---------------------------------------------------------------------------

/// `Empty` is a left and a right identity of merge.
pub proof fn lemma_merge_identity(f: Frag)
    ensures
        merge(Frag::Empty, f) == f,
        merge(f, Frag::Empty) == f,
{
}

/// Merge is associative where the middle fragment is `Empty` or of the same
/// composite kind as the first.
pub proof fn lemma_merge_associative(a: Frag, b: Frag, c: Frag)
    requires
        is_composite(a),
        b is Empty || (a is Tp && b is Tp) || (a is Expr && b is Expr),
    ensures
        merge(merge(a, b), c) == merge(a, merge(b, c)),
{
    match (a, b, c) {
        (Frag::Tp(x), Frag::Tp(y), Frag::Tp(z)) => {
            assert(x + y + z =~= x + (y + z));
        },
        (Frag::Expr(x), Frag::Expr(y), Frag::Expr(z)) => {
            assert(x + y + z =~= x + (y + z));
        },
        (Frag::Tp(x), Frag::Tp(y), _) => {
            assert((x + y).push(Elem::Node(c)) =~= x + y.push(Elem::Node(c)));
        },
        (Frag::Expr(x), Frag::Expr(y), _) => {
            assert((x + y).push(Elem::Node(c)) =~= x + y.push(Elem::Node(c)));
        },
        _ => {},
    }
}

} // verus!
