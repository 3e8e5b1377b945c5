//! The tokenizer: turns source characters into tokens on demand.
use std::collections::VecDeque;
use vstd::prelude::*;
use crate::token::{Token, spelled, is_keyword, is_symbol};

verus! {

// ---------------------------------------------------------------------------
// Character classes
// ---------------------------------------------------------------------------

pub open spec fn is_space(c: char) -> bool {
    c == ' ' || c == '\n' || c == '\t'
}

pub open spec fn is_digit(c: char) -> bool {
    '0' as u32 <= c as u32 && c as u32 <= '9' as u32
}

pub open spec fn digit_value(c: char) -> nat {
    (c as u32 - '0' as u32) as nat
}

/// Characters that may continue an identifier: a keyword is only recognized
/// where none of these stands right before or right after it.
pub open spec fn is_word_char(c: char) -> bool {
    is_digit(c) || ('a' as u32 <= c as u32 && c as u32 <= 'z' as u32) || ('A' as u32 <= c as u32
        && c as u32 <= 'Z' as u32) || c == '_'
}

pub open spec fn char_at(s: Seq<char>, i: int) -> Option<char> {
    if 0 <= i < s.len() {
        Some(s[i])
    } else {
        None
    }
}

// ---------------------------------------------------------------------------
// Numbers
// ---------------------------------------------------------------------------

/// Largest running value that may still take another digit: `u32::MAX / 10`.
pub const DIGIT_LIMIT: u32 = 429496729;

/// One digit of accumulation: `10 * sum + d` while `sum` is at most
/// `u32::MAX / 10` (saturating at `u32::MAX`), otherwise `sum` unchanged.
pub open spec fn clamp_step(sum: nat, d: nat) -> nat {
    if sum <= DIGIT_LIMIT {
        if 10 * sum + d <= u32::MAX {
            10 * sum + d
        } else {
            u32::MAX as nat
        }
    } else {
        sum
    }
}

/// The end of the run of digits that starts at `i`.
pub open spec fn digits_end(s: Seq<char>, i: int) -> int
    decreases s.len() - i,
{
    if 0 <= i < s.len() && is_digit(s[i]) {
        digits_end(s, i + 1)
    } else {
        i
    }
}

/// The clamped value of the digits `s[i..j]`.
pub open spec fn number_value(s: Seq<char>, i: int, j: int) -> nat
    decreases j - i,
{
    if j <= i {
        0
    } else {
        clamp_step(number_value(s, i, j - 1), digit_value(s[j - 1]))
    }
}

// ---------------------------------------------------------------------------
// Operators and separators
// ---------------------------------------------------------------------------

/// The operator or separator that starts at `i`, read by maximal munch, with
/// the position just after it; `None` where `s[i]` starts none.
pub open spec fn symbol_at(s: Seq<char>, i: int) -> Option<(Token, int)> {
    let n1 = char_at(s, i + 1);
    let n2 = char_at(s, i + 2);
    if !(0 <= i < s.len()) {
        None
    } else {
        match s[i] {
            ';' => Some((Token::SemiColon, i + 1)),
            '(' => Some((Token::LParen, i + 1)),
            ')' => Some((Token::RParen, i + 1)),
            '[' => Some((Token::LBracket, i + 1)),
            ']' => Some((Token::RBracket, i + 1)),
            '{' => Some((Token::LCurly, i + 1)),
            '}' => Some((Token::RCurly, i + 1)),
            ',' => Some((Token::Comma, i + 1)),
            '.' => Some((Token::FieldSelect, i + 1)),
            '?' => Some((Token::TernIf, i + 1)),
            ':' => Some((Token::TernElse, i + 1)),
            '"' => Some((Token::DQuoteMark, i + 1)),
            '\'' => Some((Token::QuoteMark, i + 1)),
            '~' => if n1 == Some('=') {
                Some((Token::BitNotEq, i + 2))
            } else {
                Some((Token::BitNot, i + 1))
            },
            '=' => if n1 == Some('=') {
                Some((Token::Equality, i + 2))
            } else {
                Some((Token::Equal, i + 1))
            },
            '!' => if n1 == Some('=') {
                Some((Token::NotEq, i + 2))
            } else if n1 == Some('!') {
                Some((Token::BooleanNot, i + 2))
            } else {
                Some((Token::Not, i + 1))
            },
            '+' => if n1 == Some('+') {
                Some((Token::PostPlusEq, i + 2))
            } else if n1 == Some('=') {
                Some((Token::PlusEq, i + 2))
            } else {
                Some((Token::Plus, i + 1))
            },
            '-' => if n1 == Some('-') {
                Some((Token::PostMinusEq, i + 2))
            } else if n1 == Some('=') {
                Some((Token::MinusEq, i + 2))
            } else if n1 == Some('>') {
                Some((Token::FieldDeref, i + 2))
            } else {
                Some((Token::Minus, i + 1))
            },
            '&' => if n1 == Some('=') {
                Some((Token::AndEq, i + 2))
            } else if n1 == Some('&') {
                Some((Token::BooleanAnd, i + 2))
            } else {
                Some((Token::And, i + 1))
            },
            '%' => if n1 == Some('=') {
                Some((Token::ModEq, i + 2))
            } else {
                Some((Token::Mod, i + 1))
            },
            '/' => if n1 == Some('=') {
                Some((Token::DivEq, i + 2))
            } else {
                Some((Token::Div, i + 1))
            },
            '*' => if n1 == Some('=') {
                Some((Token::MultEq, i + 2))
            } else {
                Some((Token::Mult, i + 1))
            },
            '<' => if n1 == Some('=') {
                Some((Token::Lte, i + 2))
            } else if n1 == Some('<') {
                if n2 == Some('=') {
                    Some((Token::LShiftEq, i + 3))
                } else {
                    Some((Token::LShift, i + 2))
                }
            } else {
                Some((Token::Lt, i + 1))
            },
            '>' => if n1 == Some('=') {
                Some((Token::Gte, i + 2))
            } else if n1 == Some('>') {
                if n2 == Some('=') {
                    Some((Token::RShiftEq, i + 3))
                } else {
                    Some((Token::RShift, i + 2))
                }
            } else {
                Some((Token::Gt, i + 1))
            },
            '^' => if n1 == Some('=') {
                Some((Token::XorEq, i + 2))
            } else {
                Some((Token::Xor, i + 1))
            },
            '|' => if n1 == Some('=') {
                Some((Token::OrEq, i + 2))
            } else if n1 == Some('|') {
                Some((Token::BooleanOr, i + 2))
            } else {
                Some((Token::Or, i + 1))
            },
            _ => None,
        }
    }
}


// ---------------------------------------------------------------------------
// Keywords
// ---------------------------------------------------------------------------

/// The keywords that begin with `c`, in the order in which they are tried.
/// No spelling in one list is a prefix of another in it (see
/// [`lemma_keyword_table_prefix_free`]); `alloc_array` is not listed, it is
/// read as an extension of `alloc` (see [`keyword_extension`]).
pub open spec fn keywords_led_by(c: char) -> Seq<Token> {
    match c {
        'a' => seq![Token::Assert, Token::Alloc],
        'b' => seq![Token::Bool, Token::Break],
        'c' => seq![Token::Char, Token::Continue],
        'e' => seq![Token::Error, Token::Else],
        'f' => seq![Token::For, Token::False],
        'i' => seq![Token::If, Token::Int],
        'N' => seq![Token::Null],
        's' => seq![Token::String, Token::Struct],
        't' => seq![Token::Typedef, Token::True],
        'r' => seq![Token::Return],
        'w' => seq![Token::While],
        'v' => seq![Token::Void],
        '#' => seq![Token::Use],
        _ => Seq::empty(),
    }
}

/// The longer keyword that continues the spelling of `t` with a fixed tail:
/// `alloc` followed by `_array`.
pub open spec fn keyword_extension(t: Token) -> Option<Token> {
    if t == Token::Alloc {
        Some(Token::AllocArray)
    } else {
        None
    }
}

/// `a` is a prefix of `b`.
pub open spec fn is_prefix_of(a: Seq<char>, b: Seq<char>) -> bool {
    a.len() <= b.len() && b.subrange(0, a.len() as int) == a
}

/// No spelling in `cands` is a prefix of another one in it.
pub open spec fn prefix_free(cands: Seq<Token>) -> bool {
    forall|j: int, k: int|
        0 <= j < cands.len() && 0 <= k < cands.len() && j != k ==> !is_prefix_of(
            #[trigger] spelled(cands[j]),
            #[trigger] spelled(cands[k]),
        )
}

/// `w` is spelled by the characters at `i`.
pub open spec fn spelled_at(s: Seq<char>, i: int, w: Seq<char>) -> bool {
    0 <= i && i + w.len() <= s.len() && s.subrange(i, i + w.len()) == w
}

/// `w` stands at `i` as a whole word: no identifier character right before
/// or right after it.
pub open spec fn word_at(s: Seq<char>, i: int, w: Seq<char>) -> bool {
    &&& spelled_at(s, i, w)
    &&& (i == 0 || !is_word_char(s[i - 1]))
    &&& (i + w.len() == s.len() || !is_word_char(s[i + w.len()]))
}

/// The first of `cands[k..]` whose spelling the characters at `i` begin with.
/// In a prefix-free list there is at most one such candidate, so the order
/// does not matter.
pub open spec fn first_spelled_at(s: Seq<char>, i: int, cands: Seq<Token>, k: int) -> Option<Token>
    decreases cands.len() - k,
{
    if k < 0 || k >= cands.len() {
        None
    } else if spelled_at(s, i, spelled(cands[k])) {
        Some(cands[k])
    } else {
        first_spelled_at(s, i, cands, k + 1)
    }
}

/// The keyword read at `i`: the candidate of the table that the characters
/// begin with, or its extension where that is spelled there, provided it
/// stands as a whole word.
pub open spec fn keyword_at(s: Seq<char>, i: int) -> Option<Token> {
    if 0 <= i < s.len() {
        match first_spelled_at(s, i, keywords_led_by(s[i]), 0) {
            Some(t) => if keyword_extension(t) is Some && word_at(
                s,
                i,
                spelled(keyword_extension(t)->Some_0),
            ) {
                keyword_extension(t)
            } else if word_at(s, i, spelled(t)) {
                Some(t)
            } else {
                None
            },
            None => None,
        }
    } else {
        None
    }
}

// ---------------------------------------------------------------------------
// Tokens
// ---------------------------------------------------------------------------

/// The token that starts at `i`, which holds no whitespace, and the position
/// just after it.
pub open spec fn scan_at(s: Seq<char>, i: int) -> (Token, int) {
    if is_digit(s[i]) {
        (Token::Num(number_value(s, i, digits_end(s, i)) as u32), digits_end(s, i))
    } else {
        match symbol_at(s, i) {
            Some(r) => r,
            None => match keyword_at(s, i) {
                Some(t) => (t, i + spelled(t).len()),
                None => (Token::Undefined(Some(s[i])), i + 1),
            },
        }
    }
}

/// The next token at or after `i`, skipping whitespace, and the position just
/// after it; `None` where only whitespace is left.
pub open spec fn lex_at(s: Seq<char>, i: int) -> Option<(Token, int)>
    decreases s.len() - i,
{
    if i < 0 || i >= s.len() {
        None
    } else if is_space(s[i]) {
        lex_at(s, i + 1)
    } else {
        Some(scan_at(s, i))
    }
}

/// All tokens from position `i` on.
pub open spec fn tokens_from(s: Seq<char>, i: int) -> Seq<Token>
    decreases s.len() - i,
{
    match lex_at(s, i) {
        Some((t, j)) => if i < j <= s.len() {
            seq![t] + tokens_from(s, j)
        } else {
            Seq::empty()
        },
        None => Seq::empty(),
    }
}

/// The token stream of a whole source text.
pub open spec fn tokenize(s: Seq<char>) -> Seq<Token> {
    tokens_from(s, 0)
}

// ---------------------------------------------------------------------------
// Facts about the token model
// ---------------------------------------------------------------------------

proof fn lemma_digits_end(s: Seq<char>, i: int)
    requires
        0 <= i <= s.len(),
    ensures
        i <= digits_end(s, i) <= s.len(),
        forall|k: int| i <= k < digits_end(s, i) ==> is_digit(#[trigger] s[k]),
    decreases s.len() - i,
{
    if i < s.len() && is_digit(s[i]) {
        lemma_digits_end(s, i + 1);
    }
}

/// A number token never exceeds `u32::MAX`, however many digits it has.
pub proof fn lemma_number_bound(s: Seq<char>, i: int, j: int)
    ensures
        number_value(s, i, j) <= u32::MAX,
    decreases j - i,
{
    if j > i {
        lemma_number_bound(s, i, j - 1);
    }
}

proof fn lemma_keywords_led_by(c: char)
    ensures
        forall|m: int|
            0 <= m < keywords_led_by(c).len() ==> is_keyword(#[trigger] keywords_led_by(c)[m]),
{
}

proof fn lemma_first_spelled_at(s: Seq<char>, i: int, cands: Seq<Token>, k: int)
    ensures
        first_spelled_at(s, i, cands, k) matches Some(t) ==> spelled_at(s, i, spelled(t)) && exists|m: int|
            0 <= m < cands.len() && cands[m] == t,
    decreases cands.len() - k,
{
    if 0 <= k < cands.len() && !spelled_at(s, i, spelled(cands[k])) {
        lemma_first_spelled_at(s, i, cands, k + 1);
    }
}

/// A keyword read at `i` is a keyword that stands at `i` as a whole word.
pub proof fn lemma_keyword_at_sound(s: Seq<char>, i: int)
    ensures
        keyword_at(s, i) matches Some(t) ==> is_keyword(t) && word_at(s, i, spelled(t)) && spelled(
            t,
        ).len() >= 1,
{
    if 0 <= i < s.len() {
        lemma_first_spelled_at(s, i, keywords_led_by(s[i]), 0);
        lemma_keywords_led_by(s[i]);
    }
}

/// Every token is read from at least one character, and none past the end.
pub proof fn lemma_scan_advances(s: Seq<char>, i: int)
    requires
        0 <= i < s.len(),
        !is_space(s[i]),
    ensures
        i < scan_at(s, i).1 <= s.len(),
{
    if is_digit(s[i]) {
        lemma_digits_end(s, i + 1);
        assert(digits_end(s, i) == digits_end(s, i + 1));
    } else if symbol_at(s, i) is None {
        lemma_keyword_at_sound(s, i);
    }
}

pub proof fn lemma_lex_advances(s: Seq<char>, i: int)
    ensures
        lex_at(s, i) matches Some((t, j)) ==> i < j <= s.len(),
    decreases s.len() - i,
{
    if 0 <= i < s.len() {
        if is_space(s[i]) {
            lemma_lex_advances(s, i + 1);
        } else {
            lemma_scan_advances(s, i);
        }
    }
}

/// The stream from `i` is the token at `i` followed by the stream after it.
pub proof fn lemma_tokens_unfold(s: Seq<char>, i: int)
    ensures
        match lex_at(s, i) {
            Some((t, j)) => tokens_from(s, i) == seq![t] + tokens_from(s, j),
            None => tokens_from(s, i) == Seq::<Token>::empty(),
        },
{
    lemma_lex_advances(s, i);
}

/// No more tokens than characters are left.
pub proof fn lemma_tokens_len(s: Seq<char>, i: int)
    requires
        0 <= i <= s.len(),
    ensures
        tokens_from(s, i).len() <= s.len() - i,
    decreases s.len() - i,
{
    lemma_lex_advances(s, i);
    if let Some((t, j)) = lex_at(s, i) {
        lemma_tokens_len(s, j);
    }
}


// ---------------------------------------------------------------------------
// Reading characters
// ---------------------------------------------------------------------------

fn space_char(c: char) -> (r: bool)
    ensures
        r == is_space(c),
{
    c == ' ' || c == '\n' || c == '\t'
}

fn digit_char(c: char) -> (r: bool)
    ensures
        r == is_digit(c),
{
    '0' as u32 <= c as u32 && c as u32 <= '9' as u32
}

fn word_char(c: char) -> (r: bool)
    ensures
        r == is_word_char(c),
{
    let u = c as u32;
    digit_char(c) || ('a' as u32 <= u && u <= 'z' as u32) || ('A' as u32 <= u && u <= 'Z' as u32)
        || c == '_'
}

/// Reads the run of digits that starts at `start` into a clamped number.
fn numeric(chars: &Vec<char>, start: usize) -> (r: (Token, usize))
    requires
        start < chars.len(),
        is_digit(chars@[start as int]),
    ensures
        r.0 == Token::Num(number_value(chars@, start as int, digits_end(chars@, start as int)) as u32),
        r.1 as int == digits_end(chars@, start as int),
{
    let mut sum: u32 = 0;
    let mut k: usize = start;
    while k < chars.len() && digit_char(chars[k])
        invariant
            start <= k <= chars.len(),
            sum as nat == number_value(chars@, start as int, k as int),
            digits_end(chars@, start as int) == digits_end(chars@, k as int),
        decreases chars.len() - k,
    {
        let d: u32 = chars[k] as u32 - '0' as u32;
        if sum <= DIGIT_LIMIT {
            let ten: u32 = 10 * sum;
            if d <= u32::MAX - ten {
                sum = ten + d;
            } else {
                sum = u32::MAX;
            }
        }
        k = k + 1;
    }
    (Token::Num(sum), k)
}

/// Reads the operator or separator that starts at `at`, taking the longest
/// spelling that the next characters allow.
fn ops(chars: &Vec<char>, at: usize) -> (r: Option<(Token, usize)>)
    requires
        at < chars.len(),
    ensures
        match symbol_at(chars@, at as int) {
            Some((t, j)) => r == Some((t, j as usize)),
            None => r is None,
        },
{
    let n1: Option<char> = if at + 1 < chars.len() {
        Some(chars[at + 1])
    } else {
        None
    };
    let n2: Option<char> = if chars.len() - at > 2 {
        Some(chars[at + 2])
    } else {
        None
    };
    match chars[at] {
        ';' => Some((Token::SemiColon, at + 1)),
        '(' => Some((Token::LParen, at + 1)),
        ')' => Some((Token::RParen, at + 1)),
        '[' => Some((Token::LBracket, at + 1)),
        ']' => Some((Token::RBracket, at + 1)),
        '{' => Some((Token::LCurly, at + 1)),
        '}' => Some((Token::RCurly, at + 1)),
        ',' => Some((Token::Comma, at + 1)),
        '.' => Some((Token::FieldSelect, at + 1)),
        '?' => Some((Token::TernIf, at + 1)),
        ':' => Some((Token::TernElse, at + 1)),
        '"' => Some((Token::DQuoteMark, at + 1)),
        '\'' => Some((Token::QuoteMark, at + 1)),
        '~' => if n1 == Some('=') {
            Some((Token::BitNotEq, at + 2))
        } else {
            Some((Token::BitNot, at + 1))
        },
        '=' => if n1 == Some('=') {
            Some((Token::Equality, at + 2))
        } else {
            Some((Token::Equal, at + 1))
        },
        '!' => if n1 == Some('=') {
            Some((Token::NotEq, at + 2))
        } else if n1 == Some('!') {
            Some((Token::BooleanNot, at + 2))
        } else {
            Some((Token::Not, at + 1))
        },
        '+' => if n1 == Some('+') {
            Some((Token::PostPlusEq, at + 2))
        } else if n1 == Some('=') {
            Some((Token::PlusEq, at + 2))
        } else {
            Some((Token::Plus, at + 1))
        },
        '-' => if n1 == Some('-') {
            Some((Token::PostMinusEq, at + 2))
        } else if n1 == Some('=') {
            Some((Token::MinusEq, at + 2))
        } else if n1 == Some('>') {
            Some((Token::FieldDeref, at + 2))
        } else {
            Some((Token::Minus, at + 1))
        },
        '&' => if n1 == Some('=') {
            Some((Token::AndEq, at + 2))
        } else if n1 == Some('&') {
            Some((Token::BooleanAnd, at + 2))
        } else {
            Some((Token::And, at + 1))
        },
        '%' => if n1 == Some('=') {
            Some((Token::ModEq, at + 2))
        } else {
            Some((Token::Mod, at + 1))
        },
        '/' => if n1 == Some('=') {
            Some((Token::DivEq, at + 2))
        } else {
            Some((Token::Div, at + 1))
        },
        '*' => if n1 == Some('=') {
            Some((Token::MultEq, at + 2))
        } else {
            Some((Token::Mult, at + 1))
        },
        '<' => if n1 == Some('=') {
            Some((Token::Lte, at + 2))
        } else if n1 == Some('<') {
            if n2 == Some('=') {
                Some((Token::LShiftEq, at + 3))
            } else {
                Some((Token::LShift, at + 2))
            }
        } else {
            Some((Token::Lt, at + 1))
        },
        '>' => if n1 == Some('=') {
            Some((Token::Gte, at + 2))
        } else if n1 == Some('>') {
            if n2 == Some('=') {
                Some((Token::RShiftEq, at + 3))
            } else {
                Some((Token::RShift, at + 2))
            }
        } else {
            Some((Token::Gt, at + 1))
        },
        '^' => if n1 == Some('=') {
            Some((Token::XorEq, at + 2))
        } else {
            Some((Token::Xor, at + 1))
        },
        '|' => if n1 == Some('=') {
            Some((Token::OrEq, at + 2))
        } else if n1 == Some('|') {
            Some((Token::BooleanOr, at + 2))
        } else {
            Some((Token::Or, at + 1))
        },
        _ => None,
    }
}

/// The keywords that begin with `lead`, in the order in which they are tried;
/// the list is prefix-free.
fn keyword_candidates(lead: char) -> (r: Vec<Token>)
    ensures
        r@ == keywords_led_by(lead),
        prefix_free(r@),
{
    proof {
        lemma_keyword_table_prefix_free(lead);
    }
    match lead {
        'a' => vec![Token::Assert, Token::Alloc],
        'b' => vec![Token::Bool, Token::Break],
        'c' => vec![Token::Char, Token::Continue],
        'e' => vec![Token::Error, Token::Else],
        'f' => vec![Token::For, Token::False],
        'i' => vec![Token::If, Token::Int],
        'N' => vec![Token::Null],
        's' => vec![Token::String, Token::Struct],
        't' => vec![Token::Typedef, Token::True],
        'r' => vec![Token::Return],
        'w' => vec![Token::While],
        'v' => vec![Token::Void],
        '#' => vec![Token::Use],
        _ => Vec::new(),
    }
}

fn extension_of(t: Token) -> (r: Option<Token>)
    ensures
        r == keyword_extension(t),
{
    if t == Token::Alloc {
        Some(Token::AllocArray)
    } else {
        None
    }
}

/// Whether the characters at `at` begin with `p`.
fn prefix_check(p: &Vec<char>, chars: &Vec<char>, at: usize) -> (r: bool)
    requires
        at <= chars.len(),
    ensures
        r == spelled_at(chars@, at as int, p@),
{
    let n = p.len();
    if n > chars.len() - at {
        return false;
    }
    let mut k: usize = 0;
    while k < n
        invariant
            k <= n,
            n == p.len(),
            at + n <= chars.len(),
            forall|m: int| 0 <= m < k ==> chars@[at + m] == p@[m],
        decreases n - k,
    {
        if chars[at + k] != p[k] {
            assert(chars@.subrange(at as int, at + n)[k as int] != p@[k as int]);
            return false;
        }
        k = k + 1;
    }
    assert(chars@.subrange(at as int, at + n) =~= p@);
    true
}

/// Whether `p` stands at `at` as a whole word.
fn pattern_check(p: &Vec<char>, chars: &Vec<char>, at: usize) -> (r: bool)
    requires
        at <= chars.len(),
    ensures
        r == word_at(chars@, at as int, p@),
{
    if !prefix_check(p, chars, at) {
        return false;
    }
    let n = p.len();
    (at == 0 || !word_char(chars[at - 1])) && (at + n == chars.len() || !word_char(chars[at + n]))
}

/// The first of `cands` whose spelling the characters at `at` begin with.
fn match_keyword(cands: &Vec<Token>, chars: &Vec<char>, at: usize) -> (r: Option<Token>)
    requires
        at <= chars.len(),
        forall|m: int| 0 <= m < cands.len() ==> is_keyword(#[trigger] cands@[m]),
    ensures
        r == first_spelled_at(chars@, at as int, cands@, 0),
{
    let mut k: usize = 0;
    while k < cands.len()
        invariant
            k <= cands.len(),
            at <= chars.len(),
            forall|m: int| 0 <= m < cands.len() ==> is_keyword(#[trigger] cands@[m]),
            first_spelled_at(chars@, at as int, cands@, 0) == first_spelled_at(
                chars@,
                at as int,
                cands@,
                k as int,
            ),
        decreases cands.len() - k,
    {
        let t = cands[k];
        if let Some(p) = t.spelling() {
            if prefix_check(&p, chars, at) {
                return Some(t);
            }
        }
        k = k + 1;
    }
    None
}

/// Reads the keyword that stands at `at` as a whole word, or else the single
/// character there as an identifier character.
fn keyword(chars: &Vec<char>, at: usize) -> (r: (Token, usize))
    requires
        at < chars.len(),
    ensures
        match keyword_at(chars@, at as int) {
            Some(t) => r == (t, (at + spelled(t).len()) as usize),
            None => r == (Token::Undefined(Some(chars@[at as int])), (at + 1) as usize),
        },
{
    let head = chars[at];
    let cands = keyword_candidates(head);
    proof {
        lemma_keywords_led_by(head);
        lemma_first_spelled_at(chars@, at as int, cands@, 0);
    }
    match match_keyword(&cands, chars, at) {
        Some(t) => {
            if let Some(longer) = extension_of(t) {
                let p = longer.spelling().unwrap();
                if pattern_check(&p, chars, at) {
                    return (longer, at + p.len());
                }
            }
            let p = t.spelling().unwrap();
            if pattern_check(&p, chars, at) {
                (t, at + p.len())
            } else {
                (Token::Undefined(Some(head)), at + 1)
            }
        },
        None => (Token::Undefined(Some(head)), at + 1),
    }
}

// ---------------------------------------------------------------------------
// The tokenizer
// ---------------------------------------------------------------------------

/// A cursor over source characters that hands out one token at a time.
///
/// Lookahead reads characters without consuming them, so characters that do
/// not belong to a token stay where they are for the next one.
pub struct Lexer {
    chars: Vec<char>,
    pos: usize,
}

impl Lexer {
    /// The whole source text.
    pub closed spec fn source(&self) -> Seq<char> {
        self.chars@
    }

    /// The position of the next character to read.
    pub closed spec fn cursor(&self) -> int {
        self.pos as int
    }

    pub closed spec fn wf(&self) -> bool {
        self.pos <= self.chars.len() <= usize::MAX
    }

    pub proof fn lemma_source_fits(&self)
        requires
            self.wf(),
        ensures
            self.source().len() <= usize::MAX,
    {
    }

    /// The tokens that are still to come.
    pub open spec fn pending(&self) -> Seq<Token> {
        tokens_from(self.source(), self.cursor())
    }

    /// A tokenizer at the start of `chars`.
    pub fn new(chars: Vec<char>) -> (r: Lexer)
        ensures
            r.wf(),
            r.source() == chars@,
            r.cursor() == 0,
            r.pending() == tokenize(chars@),
    {
        // `len` returns a `usize`: this bounds the source length that `wf` states.
        let _len = chars.len();
        Lexer { chars, pos: 0 }
    }

    /// A tokenizer over no characters.
    pub fn empty() -> (r: Lexer)
        ensures
            r.wf(),
            r.source() == Seq::<char>::empty(),
            r.cursor() == 0,
            r.pending() == Seq::<Token>::empty(),
    {
        Lexer { chars: Vec::new(), pos: 0 }
    }

    /// Reads the next token, skipping whitespace; `None` at the end of the
    /// text.
    pub fn next(&mut self) -> (r: Option<Token>)
        requires
            old(self).wf(),
        ensures
            final(self).wf(),
            final(self).source() == old(self).source(),
            match lex_at(old(self).source(), old(self).cursor()) {
                Some((t, j)) => r == Some(t) && final(self).cursor() == j,
                None => r is None && final(self).cursor() == old(self).source().len(),
            },
            match r {
                Some(t) => old(self).pending() == seq![t] + final(self).pending(),
                None => old(self).pending() == Seq::<Token>::empty() && final(self).pending()
                    == Seq::<Token>::empty(),
            },
    {
        proof {
            lemma_tokens_unfold(self.chars@, self.pos as int);
        }
        while self.pos < self.chars.len() && space_char(self.chars[self.pos])
            invariant
                self.pos <= self.chars.len(),
                self.chars@ == old(self).chars@,
                old(self).pos <= self.pos,
                lex_at(self.chars@, old(self).pos as int) == lex_at(self.chars@, self.pos as int),
            decreases self.chars.len() - self.pos,
        {
            self.pos = self.pos + 1;
        }
        if self.pos >= self.chars.len() {
            proof {
                lemma_tokens_unfold(self.chars@, self.pos as int);
            }
            return None;
        }
        let at = self.pos;
        let (t, end) = if digit_char(self.chars[at]) {
            numeric(&self.chars, at)
        } else {
            match ops(&self.chars, at) {
                Some(r) => r,
                None => keyword(&self.chars, at),
            }
        };
        proof {
            let ghost s = self.chars@;
            if is_digit(s[at as int]) {
                lemma_number_bound(s, at as int, digits_end(s, at as int));
            }
            lemma_scan_advances(s, at as int);
        }
        self.pos = end;
        Some(t)
    }

    /// Reads every token that is left.
    pub fn tokens(self) -> (r: VecDeque<Token>)
        requires
            self.wf(),
        ensures
            r@ == self.pending(),
    {
        let mut lx = self;
        let mut out: VecDeque<Token> = VecDeque::new();
        loop
            invariant
                lx.wf(),
                lx.source() == self.source(),
                out@ + lx.pending() == self.pending(),
            decreases lx.source().len() - lx.cursor(),
        {
            proof {
                lemma_lex_advances(lx.source(), lx.cursor());
            }
            match lx.next() {
                Some(t) => {
                    out.push_back(t);
                    assert(out@ + lx.pending() =~= self.pending());
                },
                None => {
                    assert(out@ =~= self.pending());
                    return out;
                },
            }
        }
    }
}

/// The token stream of a whole source text.
pub fn lex_tokens(chars: Vec<char>) -> (r: VecDeque<Token>)
    ensures
        r@ == tokenize(chars@),
{
    Lexer::new(chars).tokens()
}


// ---------------------------------------------------------------------------
// Laws of the tokenizer
// ---------------------------------------------------------------------------

/// Maximal munch: where some operator or separator is spelled at `i`, the
/// token read there is an operator or separator spelled at `i`, it ends right
/// after its spelling, and no operator or separator with a longer spelling
/// stands at `i`.
pub proof fn lemma_maximal_munch(s: Seq<char>, i: int, u: Token)
    requires
        is_symbol(u),
        spelled_at(s, i, spelled(u)),
    ensures
        !is_space(s[i]),
        ({
            let (t, j) = scan_at(s, i);
            &&& is_symbol(t)
            &&& spelled_at(s, i, spelled(t))
            &&& j == i + spelled(t).len()
            &&& spelled(u).len() <= spelled(t).len()
        }),
{
    let n = spelled(u).len();
    assert(s.subrange(i, i + n)[0] == s[i]);
    if n >= 2 {
        assert(s.subrange(i, i + n)[1] == s[i + 1]);
    }
    if n >= 3 {
        assert(s.subrange(i, i + n)[2] == s[i + 2]);
    }
    let (t, j) = symbol_at(s, i).unwrap();
    let m = spelled(t).len();
    assert(s.subrange(i, i + m) =~= spelled(t));
}

/// Every operator and separator, on its own, reads back as exactly itself.
pub proof fn lemma_symbol_round_trip(t: Token)
    requires
        is_symbol(t),
    ensures
        tokenize(spelled(t)) == seq![t],
        spelled(tokenize(spelled(t))[0]) == spelled(t),
{
    let s = spelled(t);
    lemma_tokens_unfold(s, 0);
    assert(symbol_at(s, 0) == Some((t, s.len() as int)));
    lemma_tokens_unfold(s, s.len() as int);
    assert(seq![t] + Seq::<Token>::empty() =~= seq![t]);
}

/// A keyword is read only where its spelling stands as a whole word: no
/// identifier character right before it or right after it.
pub proof fn lemma_keyword_boundary(s: Seq<char>, i: int)
    requires
        0 <= i < s.len(),
        !is_space(s[i]),
        is_keyword(scan_at(s, i).0),
    ensures
        word_at(s, i, spelled(scan_at(s, i).0)),
        scan_at(s, i).1 == i + spelled(scan_at(s, i).0).len(),
{
    lemma_keyword_at_sound(s, i);
}

/// Once a number has passed `u32::MAX / 10`, further digits leave it as it is.
pub proof fn lemma_number_clamped(s: Seq<char>, i: int, j: int)
    requires
        i <= j,
        number_value(s, i, j) > DIGIT_LIMIT,
    ensures
        number_value(s, i, j + 1) == number_value(s, i, j),
{
}


proof fn lemma_keyword_tail_chars(t: Token, k: int)
    requires
        is_keyword(t),
        1 <= k < spelled(t).len(),
    ensures
        is_word_char(spelled(t)[k]),
{
}

proof fn lemma_keyword_spelling_injective(t1: Token, t2: Token)
    requires
        is_keyword(t1),
        is_keyword(t2),
        spelled(t1) == spelled(t2),
    ensures
        t1 == t2,
{
    let w = spelled(t1);
    assert(w.len() == spelled(t2).len());
    assert(w[0] == spelled(t2)[0]);
    if w.len() > 1 {
        assert(w[1] == spelled(t2)[1]);
    }
    if w.len() > 2 {
        assert(w[2] == spelled(t2)[2]);
    }
}

/// At any position at most one keyword, `alloc` and `alloc_array` included,
/// stands as a whole word.
pub proof fn lemma_keyword_unique(s: Seq<char>, i: int, t1: Token, t2: Token)
    requires
        is_keyword(t1),
        is_keyword(t2),
        word_at(s, i, spelled(t1)),
        word_at(s, i, spelled(t2)),
    ensures
        t1 == t2,
{
    let w1 = spelled(t1);
    let w2 = spelled(t2);
    if w1.len() < w2.len() {
        assert(s.subrange(i, i + w2.len())[w1.len() as int] == s[i + w1.len()]);
        lemma_keyword_tail_chars(t2, w1.len() as int);
    } else if w2.len() < w1.len() {
        assert(s.subrange(i, i + w1.len())[w2.len() as int] == s[i + w2.len()]);
        lemma_keyword_tail_chars(t1, w2.len() as int);
    } else {
        lemma_keyword_spelling_injective(t1, t2);
    }
}


/// The entry of the keyword table under which a keyword is read: the
/// keyword itself, or the keyword that it extends.
spec fn keyword_base(t: Token) -> Token {
    if t == Token::AllocArray {
        Token::Alloc
    } else {
        t
    }
}

/// Where the entry of each keyword stands in the table of its first character.
spec fn keyword_slot(t: Token) -> int {
    match t {
        Token::Alloc | Token::AllocArray | Token::Break | Token::Continue | Token::Else
        | Token::False | Token::Int | Token::Struct | Token::True => 1,
        _ => 0,
    }
}

proof fn lemma_keyword_in_table(t: Token)
    requires
        is_keyword(t),
    ensures
        0 <= keyword_slot(t) < keywords_led_by(spelled(t)[0]).len(),
        keywords_led_by(spelled(t)[0])[keyword_slot(t)] == keyword_base(t),
        is_prefix_of(spelled(keyword_base(t)), spelled(t)),
        keyword_base(t) != t ==> keyword_extension(keyword_base(t)) == Some(t),
{
    if t == Token::AllocArray {
        assert(spelled(t).subrange(0, 5) =~= spelled(Token::Alloc));
    } else {
        assert(spelled(t).subrange(0, spelled(t).len() as int) =~= spelled(t));
    }
}

proof fn lemma_prefix_spelled_at(s: Seq<char>, i: int, a: Seq<char>, b: Seq<char>)
    requires
        spelled_at(s, i, b),
        is_prefix_of(a, b),
    ensures
        spelled_at(s, i, a),
{
    assert(s.subrange(i, i + a.len()) =~= b.subrange(0, a.len() as int));
}

proof fn lemma_spelled_at_prefix(s: Seq<char>, i: int, a: Seq<char>, b: Seq<char>)
    requires
        spelled_at(s, i, a),
        spelled_at(s, i, b),
        a.len() <= b.len(),
    ensures
        is_prefix_of(a, b),
{
    assert forall|k: int| 0 <= k < a.len() implies b.subrange(0, a.len() as int)[k] == a[k] by {
        assert(s.subrange(i, i + b.len())[k] == s[i + k]);
        assert(s.subrange(i, i + a.len())[k] == s[i + k]);
    }
    assert(b.subrange(0, a.len() as int) =~= a);
}

proof fn lemma_first_spelled_at_finds(s: Seq<char>, i: int, cands: Seq<Token>, k: int, m: int)
    requires
        0 <= k <= m < cands.len(),
        spelled_at(s, i, spelled(cands[m])),
    ensures
        first_spelled_at(s, i, cands, k) is Some,
    decreases m - k,
{
    if !spelled_at(s, i, spelled(cands[k])) {
        lemma_first_spelled_at_finds(s, i, cands, k + 1, m);
    }
}

proof fn lemma_not_prefix(a: Seq<char>, b: Seq<char>, k: int)
    requires
        0 <= k < a.len(),
        k < b.len(),
        a[k] != b[k],
    ensures
        !is_prefix_of(a, b),
        !is_prefix_of(b, a),
{
    if is_prefix_of(a, b) {
        assert(b.subrange(0, a.len() as int)[k] == b[k]);
    }
    if is_prefix_of(b, a) {
        assert(a.subrange(0, b.len() as int)[k] == a[k]);
    }
}

/// The keyword table keeps its invariant: every entry under `c` is a keyword
/// spelled with `c` first, and no entry's spelling is a prefix of another's.
pub proof fn lemma_keyword_table_prefix_free(c: char)
    ensures
        prefix_free(keywords_led_by(c)),
        forall|k: int|
            0 <= k < keywords_led_by(c).len() ==> is_keyword(#[trigger] keywords_led_by(c)[k])
                && spelled(keywords_led_by(c)[k])[0] == c,
{
    match c {
        'a' => lemma_not_prefix(spelled(Token::Assert), spelled(Token::Alloc), 1),
        'b' => lemma_not_prefix(spelled(Token::Bool), spelled(Token::Break), 1),
        'c' => lemma_not_prefix(spelled(Token::Char), spelled(Token::Continue), 1),
        'e' => lemma_not_prefix(spelled(Token::Error), spelled(Token::Else), 1),
        'f' => lemma_not_prefix(spelled(Token::For), spelled(Token::False), 1),
        'i' => lemma_not_prefix(spelled(Token::If), spelled(Token::Int), 1),
        's' => lemma_not_prefix(spelled(Token::String), spelled(Token::Struct), 3),
        't' => lemma_not_prefix(spelled(Token::Typedef), spelled(Token::True), 1),
        _ => {},
    }
}

/// The keyword read at `i` is exactly the keyword, if any, that stands at `i`
/// as a whole word.
pub proof fn lemma_keyword_at_exact(s: Seq<char>, i: int, t: Token)
    requires
        is_keyword(t),
    ensures
        keyword_at(s, i) == Some(t) <==> word_at(s, i, spelled(t)),
{
    lemma_keyword_at_sound(s, i);
    if let Some(u) = keyword_at(s, i) {
        if word_at(s, i, spelled(t)) {
            lemma_keyword_unique(s, i, t, u);
        }
    } else if word_at(s, i, spelled(t)) {
        lemma_keyword_spelled_nonempty(t);
        assert(s.subrange(i, i + spelled(t).len())[0] == s[i]);
        let c = s[i];
        let cands = keywords_led_by(c);
        let b = keyword_base(t);
        let m = keyword_slot(t);
        lemma_keyword_in_table(t);
        lemma_keyword_table_prefix_free(c);
        lemma_prefix_spelled_at(s, i, spelled(b), spelled(t));
        lemma_first_spelled_at_finds(s, i, cands, 0, m);
        lemma_first_spelled_at(s, i, cands, 0);
        let found = first_spelled_at(s, i, cands, 0)->Some_0;
        let m2 = choose|m2: int| 0 <= m2 < cands.len() && cands[m2] == found;
        if m2 != m {
            if spelled(found).len() <= spelled(b).len() {
                lemma_spelled_at_prefix(s, i, spelled(found), spelled(b));
            } else {
                lemma_spelled_at_prefix(s, i, spelled(b), spelled(found));
            }
        }
        assert(found == b);
    }
}

proof fn lemma_keyword_spelled_nonempty(t: Token)
    requires
        is_keyword(t),
    ensures
        spelled(t).len() >= 1,
{
}


/// Where no keyword stands at `i` as a whole word, a character that starts no
/// number, operator or separator is read alone, as one identifier
/// character; so a keyword's spelling followed by more identifier characters
/// (`intx`) gives no keyword.
pub proof fn lemma_no_keyword_identifier(s: Seq<char>, i: int)
    requires
        0 <= i < s.len(),
        !is_space(s[i]),
        !is_digit(s[i]),
        symbol_at(s, i) is None,
        forall|t: Token| is_keyword(t) ==> !word_at(s, i, #[trigger] spelled(t)),
    ensures
        scan_at(s, i) == (Token::Undefined(Some(s[i])), i + 1),
{
    lemma_keyword_at_sound(s, i);
}

} // verus!
