//! General properties of the scan, stated over the model.
use vstd::prelude::*;
use crate::model::{
    digit_run_len, digits_value, is_digit, is_white_space, lemma_digit_run_len_exact,
    lemma_digit_run_len_props, lemma_digits_value_non_negative, lemma_next_lexeme_shrinks, lex_at, next_lexeme, operator_of, out_of_range_message, scan,
    skip_white_space, unexpected_message, Lexeme,
};

verus! {

pub open spec fn all_white_space(s: Seq<char>) -> bool {
    forall|i: int| 0 <= i < s.len() ==> is_white_space(#[trigger] s[i])
}

pub open spec fn all_digits(s: Seq<char>) -> bool {
    forall|i: int| 0 <= i < s.len() ==> is_digit(#[trigger] s[i])
}

/// Leading whitespace is skipped as a whole.
pub proof fn lemma_skip_leading_white_space(w: Seq<char>, s: Seq<char>)
    requires
        all_white_space(w),
    ensures
        skip_white_space(w + s) == skip_white_space(s),
    decreases w.len(),
{
    if w.len() > 0 {
        assert((w + s).drop_first() =~= w.drop_first() + s);
        assert(all_white_space(w.drop_first())) by {
            assert forall|i: int| 0 <= i < w.drop_first().len() implies is_white_space(
                #[trigger] w.drop_first()[i],
            ) by {
                assert(w.drop_first()[i] == w[i + 1]);
            }
        }
        lemma_skip_leading_white_space(w.drop_first(), s);
    } else {
        assert(w + s =~= s);
    }
}

/// Whitespace in front of an input changes none of its tokens.
pub proof fn lemma_scan_leading_white_space(w: Seq<char>, s: Seq<char>)
    requires
        all_white_space(w),
    ensures
        scan(w + s) == scan(s),
{
    lemma_skip_leading_white_space(w, s);
    assert(next_lexeme(w + s) == next_lexeme(s));
}

/// An input made of whitespace alone, the empty input included, has no
/// tokens.
pub proof fn whitespace_only_has_no_tokens(s: Seq<char>)
    requires
        all_white_space(s),
    ensures
        scan(s) == Seq::<Lexeme>::empty(),
{
    lemma_scan_leading_white_space(s, Seq::empty());
    assert(s + Seq::<char>::empty() =~= s);
}

/// A run of digits that a non-digit or the end of the input follows becomes
/// exactly one token, and scanning goes on right after the run. The token is
/// the number the run spells in base 10 when that fits an `i32`, and an
/// error naming the run otherwise.
pub proof fn digit_run_is_one_number(d: Seq<char>, rest: Seq<char>)
    requires
        d.len() >= 1,
        all_digits(d),
        rest.len() == 0 || !is_digit(rest[0]),
    ensures
        digits_value(d) <= i32::MAX ==> next_lexeme(d + rest) == Some(
            (Lexeme::Number(digits_value(d)), rest),
        ),
        digits_value(d) > i32::MAX ==> next_lexeme(d + rest) == Some(
            (Lexeme::Error(out_of_range_message(d)), rest),
        ),
        digits_value(d) <= i32::MAX ==> scan(d + rest) == seq![Lexeme::Number(digits_value(d))]
            + scan(rest),
{
    let s = d + rest;
    assert(!is_white_space(s[0]));
    assert forall|i: int| 0 <= i < d.len() implies is_digit(#[trigger] s[i]) by {
        assert(s[i] == d[i]);
    }
    lemma_digit_run_len_exact(s, d.len());
    assert(s.take(d.len() as int) =~= d);
    assert(s.skip(d.len() as int) =~= rest);
}

/// An operator or parenthesis with only whitespace around it is scanned as
/// that one token.
pub proof fn lone_operator_is_one_token(before: Seq<char>, c: char, after: Seq<char>)
    requires
        operator_of(c) is Some,
        all_white_space(before),
        all_white_space(after),
    ensures
        scan(before + seq![c] + after) == seq![operator_of(c)->0],
{
    let s = seq![c] + after;
    assert(before + seq![c] + after =~= before + s);
    lemma_scan_leading_white_space(before, s);
    assert(s.skip(1) =~= after);
    whitespace_only_has_no_tokens(after);
    assert(scan(s) =~= seq![operator_of(c)->0]);
}

/// A character that starts no token becomes exactly one error token, whose
/// message holds that character, and scanning goes on right after it.
pub proof fn unsupported_char_is_one_error(c: char, rest: Seq<char>)
    requires
        operator_of(c) is None,
        !is_digit(c),
        !is_white_space(c),
    ensures
        next_lexeme(seq![c] + rest) == Some((Lexeme::Error(unexpected_message(c)), rest)),
        unexpected_message(c).contains(c),
{
    let s = seq![c] + rest;
    assert(s[0] == c);
    assert(s.skip(1) =~= rest);
    let m = unexpected_message(c);
    assert(m[m.len() - 1] == c);
}

/// Every number token of a scan is non-negative and fits an `i32`: a `-`
/// is always a token of its own.
pub proof fn scanned_numbers_are_non_negative(s: Seq<char>)
    ensures
        forall|i: int| #![auto]
            0 <= i < scan(s).len() && scan(s)[i] is Number ==> 0 <= scan(s)[i]->Number_0
                <= i32::MAX,
    decreases s.len(),
{
    if let Some((l, rest)) = next_lexeme(s) {
        lemma_next_lexeme_shrinks(s);
        scanned_numbers_are_non_negative(rest);
        let t = skip_white_space(s);
        if l is Number {
            lemma_digit_run_len_props(t);
            let d = t.take(digit_run_len(t) as int);
            assert forall|i: int| 0 <= i < d.len() implies is_digit(#[trigger] d[i]) by {
                assert(d[i] == t[i]);
            }
            lemma_digits_value_non_negative(d);
        }
        assert forall|i: int| 0 < i < scan(s).len() implies #[trigger] scan(s)[i] == scan(rest)[i
            - 1] by {}
    }
}

/// Whitespace does not split a token other than a digit run, so the first
/// token of `a + w + b` is that of `a + b`, and it ends within `a`.
proof fn lemma_first_token_ignores_gap(a: Seq<char>, w: Seq<char>, b: Seq<char>)
    requires
        a.len() > 0,
        !is_white_space(a[0]),
        all_white_space(w),
        !(b.len() > 0 && is_digit(a.last()) && is_digit(b[0])),
    ensures
        lex_at(a + w + b) == lex_at(a + b),
        lex_at(a + b).1 <= a.len(),
{
    let s1 = a + w + b;
    let s2 = a + b;
    assert(s1[0] == a[0] && s2[0] == a[0]);
    if operator_of(a[0]) is None && is_digit(a[0]) {
        lemma_digit_run_len_props(a);
        let m = digit_run_len(a);
        assert forall|i: int| 0 <= i < m implies is_digit(#[trigger] s1[i]) by {
            assert(s1[i] == a[i]);
        }
        assert forall|i: int| 0 <= i < m implies is_digit(#[trigger] s2[i]) by {
            assert(s2[i] == a[i]);
        }
        if m < a.len() {
            assert(s1[m as int] == a[m as int] && s2[m as int] == a[m as int]);
        } else {
            if w.len() > 0 {
                assert(s1[m as int] == w[0]);
            } else if b.len() > 0 {
                assert(s1[m as int] == b[0]);
                assert(a.last() == a[m - 1]);
            }
            if b.len() > 0 {
                assert(s2[m as int] == b[0]);
                assert(a.last() == a[m - 1]);
            }
        }
        lemma_digit_run_len_exact(s1, m);
        lemma_digit_run_len_exact(s2, m);
        assert(s1.take(m as int) =~= a.take(m as int));
        assert(s2.take(m as int) =~= a.take(m as int));
    }
}

/// Whitespace put between two tokens, or taken away from between them,
/// leaves the token sequence as it is. The place is between tokens unless it
/// splits a run of digits.
pub proof fn whitespace_between_tokens_is_ignored(a: Seq<char>, w: Seq<char>, b: Seq<char>)
    requires
        all_white_space(w),
        !(a.len() > 0 && b.len() > 0 && is_digit(a.last()) && is_digit(b[0])),
    ensures
        scan(a + w + b) == scan(a + b),
    decreases a.len(),
{
    let s1 = a + w + b;
    let s2 = a + b;
    if a.len() == 0 {
        assert(s1 =~= w + b);
        assert(s2 =~= b);
        lemma_scan_leading_white_space(w, b);
    } else if is_white_space(a[0]) {
        let t = a.drop_first();
        assert(s1.drop_first() =~= t + w + b);
        assert(s2.drop_first() =~= t + b);
        assert(s1[0] == a[0] && s2[0] == a[0]);
        assert(skip_white_space(s1) == skip_white_space(s1.drop_first()));
        assert(skip_white_space(s2) == skip_white_space(s2.drop_first()));
        if t.len() > 0 {
            assert(t.last() == a.last());
        }
        whitespace_between_tokens_is_ignored(t, w, b);
        assert(next_lexeme(s1) == next_lexeme(t + w + b));
        assert(next_lexeme(s2) == next_lexeme(t + b));
    } else {
        assert(s1[0] == a[0] && s2[0] == a[0]);
        assert(skip_white_space(s1) == s1);
        assert(skip_white_space(s2) == s2);
        lemma_first_token_ignores_gap(a, w, b);
        let n = lex_at(s2).1;
        let t = a.skip(n as int);
        assert(s1.skip(n as int) =~= t + w + b);
        assert(s2.skip(n as int) =~= t + b);
        if t.len() > 0 {
            assert(t.last() == a.last());
        }
        whitespace_between_tokens_is_ignored(t, w, b);
    }
}

} // verus!
