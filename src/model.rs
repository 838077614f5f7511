//! The mathematical model of scanning: what one token is, and what the whole
//! token sequence of an input is.
use vstd::prelude::*;

verus! {

/// The value a token stands for: numbers as mathematical integers, error
/// messages as character sequences.
pub enum Lexeme {
    Number(int),
    Plus,
    Minus,
    Multiply,
    Divide,
    Power,
    LParen,
    RParen,
    Error(Seq<char>),
}

/// The Unicode `White_Space` property.
pub open spec fn is_white_space(c: char) -> bool {
    let u = c as u32;
    ||| 0x09 <= u <= 0x0d
    ||| u == 0x20
    ||| u == 0x85
    ||| u == 0xa0
    ||| u == 0x1680
    ||| 0x2000 <= u <= 0x200a
    ||| u == 0x2028
    ||| u == 0x2029
    ||| u == 0x202f
    ||| u == 0x205f
    ||| u == 0x3000
}

/// A decimal digit `0` to `9`.
pub open spec fn is_digit(c: char) -> bool {
    '0' <= c <= '9'
}

pub open spec fn digit_value(c: char) -> int {
    c as int - '0' as int
}

/// The operator or parenthesis that a single character stands for, if any.
pub open spec fn operator_of(c: char) -> Option<Lexeme> {
    if c == '+' {
        Some(Lexeme::Plus)
    } else if c == '-' {
        Some(Lexeme::Minus)
    } else if c == '*' {
        Some(Lexeme::Multiply)
    } else if c == '/' {
        Some(Lexeme::Divide)
    } else if c == '^' {
        Some(Lexeme::Power)
    } else if c == '(' {
        Some(Lexeme::LParen)
    } else if c == ')' {
        Some(Lexeme::RParen)
    } else {
        None
    }
}

/// The number of decimal digits at the start of `s`.
pub open spec fn digit_run_len(s: Seq<char>) -> nat
    decreases s.len(),
{
    if s.len() > 0 && is_digit(s[0]) {
        1 + digit_run_len(s.drop_first())
    } else {
        0
    }
}

/// The base-10 value of a sequence of digits, most significant first.
pub open spec fn digits_value(d: Seq<char>) -> int
    decreases d.len(),
{
    if d.len() == 0 {
        0
    } else {
        digits_value(d.drop_last()) * 10 + digit_value(d.last())
    }
}

/// The message of the error token for a character that starts no token.
pub open spec fn unexpected_message(c: char) -> Seq<char> {
    "Unexpected char -> "@.push(c)
}

/// The message of the error token for a digit run too large for an `i32`.
pub open spec fn out_of_range_message(digits: Seq<char>) -> Seq<char> {
    "Number out of range -> "@ + digits
}

/// The token that starts at the first character of `s`, and how many
/// characters it takes.
pub open spec fn lex_at(s: Seq<char>) -> (Lexeme, nat)
    recommends
        s.len() > 0,
{
    let c = s[0];
    if operator_of(c) is Some {
        (operator_of(c)->0, 1)
    } else if is_digit(c) {
        let n = digit_run_len(s);
        let v = digits_value(s.take(n as int));
        if v <= i32::MAX {
            (Lexeme::Number(v), n)
        } else {
            (Lexeme::Error(out_of_range_message(s.take(n as int))), n)
        }
    } else {
        (Lexeme::Error(unexpected_message(c)), 1)
    }
}

/// `s` without its leading whitespace.
pub open spec fn skip_white_space(s: Seq<char>) -> Seq<char>
    decreases s.len(),
{
    if s.len() > 0 && is_white_space(s[0]) {
        skip_white_space(s.drop_first())
    } else {
        s
    }
}

/// The next token of `s` and the input left after it, or `None` when only
/// whitespace is left.
pub open spec fn next_lexeme(s: Seq<char>) -> Option<(Lexeme, Seq<char>)> {
    let t = skip_white_space(s);
    if t.len() == 0 {
        None
    } else {
        Some((lex_at(t).0, t.skip(lex_at(t).1 as int)))
    }
}

/// The whole token sequence of `s`, left to right.
pub open spec fn scan(s: Seq<char>) -> Seq<Lexeme>
    decreases s.len(),
{
    match next_lexeme(s) {
        None => Seq::empty(),
        Some((l, rest)) => {
            proof {
                lemma_next_lexeme_shrinks(s);
            }
            seq![l] + scan(rest)
        },
    }
}

pub proof fn lemma_digit_run_len_bound(s: Seq<char>)
    ensures
        digit_run_len(s) <= s.len(),
        s.len() > 0 && is_digit(s[0]) ==> digit_run_len(s) >= 1,
    decreases s.len(),
{
    if s.len() > 0 && is_digit(s[0]) {
        lemma_digit_run_len_bound(s.drop_first());
    }
}

/// A run of `k` digits that a non-digit or the end of `s` follows is the
/// whole digit run at the start of `s`.
pub proof fn lemma_digit_run_len_exact(s: Seq<char>, k: nat)
    requires
        k <= s.len(),
        forall|i: int| 0 <= i < k ==> is_digit(#[trigger] s[i]),
        k == s.len() || !is_digit(s[k as int]),
    ensures
        digit_run_len(s) == k,
    decreases k,
{
    if k > 0 {
        let t = s.drop_first();
        assert forall|i: int| 0 <= i < k - 1 implies is_digit(#[trigger] t[i]) by {
            assert(t[i] == s[i + 1]);
        }
        lemma_digit_run_len_exact(t, (k - 1) as nat);
    }
}

/// The digit run at the start of `s` is made of digits, and a non-digit or
/// the end of `s` follows it.
pub proof fn lemma_digit_run_len_props(s: Seq<char>)
    ensures
        digit_run_len(s) <= s.len(),
        forall|i: int| 0 <= i < digit_run_len(s) ==> is_digit(#[trigger] s[i]),
        digit_run_len(s) == s.len() || !is_digit(s[digit_run_len(s) as int]),
    decreases s.len(),
{
    if s.len() > 0 && is_digit(s[0]) {
        let t = s.drop_first();
        lemma_digit_run_len_props(t);
        assert forall|i: int| 0 <= i < digit_run_len(s) implies is_digit(#[trigger] s[i]) by {
            if i > 0 {
                assert(s[i] == t[i - 1]);
            }
        }
    }
}

/// Digits spell a value of zero or more.
pub proof fn lemma_digits_value_non_negative(d: Seq<char>)
    requires
        forall|i: int| 0 <= i < d.len() ==> is_digit(#[trigger] d[i]),
    ensures
        digits_value(d) >= 0,
    decreases d.len(),
{
    if d.len() > 0 {
        let t = d.drop_last();
        assert forall|i: int| 0 <= i < t.len() implies is_digit(#[trigger] t[i]) by {
            assert(t[i] == d[i]);
        }
        lemma_digits_value_non_negative(t);
    }
}

/// Appending a digit shifts the value one decimal place.
pub proof fn lemma_digits_value_push(d: Seq<char>, c: char)
    ensures
        digits_value(d.push(c)) == digits_value(d) * 10 + digit_value(c),
{
    assert(d.push(c).drop_last() =~= d);
}

pub proof fn lemma_lex_at_len(s: Seq<char>)
    requires
        s.len() > 0,
    ensures
        1 <= lex_at(s).1 <= s.len(),
{
    lemma_digit_run_len_bound(s);
}

pub proof fn lemma_skip_white_space_suffix(s: Seq<char>)
    ensures
        skip_white_space(s).len() <= s.len(),
        skip_white_space(s) == s.skip(s.len() - skip_white_space(s).len()),
    decreases s.len(),
{
    if s.len() > 0 && is_white_space(s[0]) {
        lemma_skip_white_space_suffix(s.drop_first());
        let t = skip_white_space(s);
        assert(s.drop_first().skip(s.drop_first().len() - t.len()) =~= s.skip(s.len() - t.len()));
    } else {
        assert(s.skip(0) =~= s);
    }
}

pub proof fn lemma_next_lexeme_shrinks(s: Seq<char>)
    ensures
        next_lexeme(s) matches Some((l, rest)) ==> rest.len() < s.len(),
{
    let t = skip_white_space(s);
    lemma_skip_white_space_suffix(s);
    if t.len() > 0 {
        lemma_lex_at_len(t);
    }
}

} // verus!
