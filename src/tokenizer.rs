//! Tokens and the scanner that produces them on demand.
use vstd::prelude::*;
use crate::cursor::CharCursor;
use crate::model::{
    digits_value, is_digit, is_white_space, lemma_digit_run_len_exact, lemma_digits_value_push,
    lemma_lex_at_len, lemma_next_lexeme_shrinks, lex_at, next_lexeme, scan, skip_white_space,
    Lexeme,
};

verus! {

/// One lexical unit of an arithmetic expression.
#[derive(Debug, Clone, PartialEq, Eq)]
pub enum Token {
    Number(i32),
    Plus,
    Minus,
    Multiply,
    Divide,
    Power,
    LParen,
    RParen,
    Error(String),
}

impl View for Token {
    type V = Lexeme;

    open spec fn view(&self) -> Lexeme {
        match self {
            Token::Number(n) => Lexeme::Number(*n as int),
            Token::Plus => Lexeme::Plus,
            Token::Minus => Lexeme::Minus,
            Token::Multiply => Lexeme::Multiply,
            Token::Divide => Lexeme::Divide,
            Token::Power => Lexeme::Power,
            Token::LParen => Lexeme::LParen,
            Token::RParen => Lexeme::RParen,
            Token::Error(m) => Lexeme::Error(m@),
        }
    }
}

/// Relies on `char::is_whitespace`: true exactly for the characters with the
/// Unicode `White_Space` property.
#[verifier::external_body]
fn char_is_whitespace(c: char) -> (r: bool)
    ensures
        r == is_white_space(c),
{
    c.is_whitespace()
}

/// Relies on `String::push`: appends the character at the end of the string.
#[verifier::external_body]
fn push_char(s: &mut String, c: char)
    ensures
        final(s)@ == old(s)@.push(c),
{
    s.push(c)
}

/// Scans an expression left to right, one token per call. Its view is the
/// input not yet consumed.
#[derive(Debug)]
pub struct Tokenizer {
    pub chars_iter: CharCursor,
}

impl View for Tokenizer {
    type V = Seq<char>;

    open spec fn view(&self) -> Seq<char> {
        self.chars_iter@
    }
}

impl Tokenizer {
    /// A scanner at the start of `input`.
    pub fn new(input: &str) -> (r: Self)
        ensures
            r@ == input@,
    {
        Tokenizer { chars_iter: CharCursor::new(input) }
    }

    /// Skips whitespace, then produces the next token, or `None` once only
    /// whitespace is left.
    pub fn next_token(&mut self) -> (r: Option<Token>)
        ensures
            next_lexeme(old(self)@) is None ==> r is None && final(self)@.len() == 0,
            next_lexeme(old(self)@) matches Some((l, rest)) ==> (r matches Some(t) && t@ == l
                && final(self)@ == rest),
    {
        let ghost start = self@;
        loop
            invariant
                skip_white_space(self@) == skip_white_space(start),
            ensures
                self@ == skip_white_space(start),
            decreases self@.len(),
        {
            match self.chars_iter.peek() {
                Some(c) => {
                    if char_is_whitespace(*c) {
                        self.chars_iter.next();
                    } else {
                        break;
                    }
                },
                None => {
                    break;
                },
            }
        }
        let ghost t = self@;
        match self.chars_iter.next() {
            Some(c) => {
                proof {
                    lemma_lex_at_len(t);
                    assert(seq![c] + t.drop_first() =~= t);
                    assert(t.drop_first().skip(lex_at(t).1 - 1) =~= t.skip(lex_at(t).1 as int));
                }
                Some(self.match_char(c))
            },
            None => None,
        }
    }

    /// The next token of the sequence, or `None` once it is exhausted; the
    /// same step as `next_token`.
    pub fn next(&mut self) -> (r: Option<Token>)
        ensures
            next_lexeme(old(self)@) is None ==> r is None && final(self)@.len() == 0,
            next_lexeme(old(self)@) matches Some((l, rest)) ==> (r matches Some(t) && t@ == l
                && final(self)@ == rest),
    {
        self.next_token()
    }

    /// Scans the rest of the input, returning every token in order.
    pub fn collect(self) -> (r: Vec<Token>)
        ensures
            r@.map_values(|t: Token| t@) == scan(self@),
    {
        let ghost input = self@;
        let mut tokenizer = self;
        let mut tokens: Vec<Token> = Vec::new();
        loop
            invariant
                tokens@.map_values(|t: Token| t@) + scan(tokenizer@) == scan(input),
            ensures
                tokens@.map_values(|t: Token| t@) == scan(input),
            decreases tokenizer@.len(),
        {
            let ghost before = tokenizer@;
            match tokenizer.next_token() {
                Some(t) => {
                    proof {
                        lemma_next_lexeme_shrinks(before);
                        let ghost old_tokens = tokens@;
                        assert(old_tokens.push(t).map_values(|t: Token| t@) =~= old_tokens.map_values(
                            |t: Token| t@,
                        ).push(t@));
                        assert(old_tokens.map_values(|t: Token| t@) + scan(before) =~= old_tokens.push(
                            t,
                        ).map_values(|t: Token| t@) + scan(tokenizer@));
                    }
                    tokens.push(t);
                },
                None => {
                    assert(tokens@.map_values(|t: Token| t@) + scan(before) =~= tokens@.map_values(
                        |t: Token| t@,
                    ));
                    break;
                },
            }
        }
        tokens
    }

    /// Classifies `c`, a character just consumed. A digit also consumes the
    /// digits that directly follow it.
    pub fn match_char(&mut self, c: char) -> (r: Token)
        ensures
            r@ == lex_at(seq![c] + old(self)@).0,
            final(self)@ == old(self)@.skip(lex_at(seq![c] + old(self)@).1 - 1),
    {
        let ghost s = seq![c] + self@;
        assert(s[0] == c);
        match c {
            '+' => Token::Plus,
            '-' => Token::Minus,
            '*' => Token::Multiply,
            '/' => Token::Divide,
            '^' => Token::Power,
            '(' => Token::LParen,
            ')' => Token::RParen,
            '0'..='9' => self.read_number(c),
            _ => {
                assert(self@.skip(0) =~= self@);
                let mut msg = String::from_str("Unexpected char -> ");
                push_char(&mut msg, c);
                Token::Error(msg)
            },
        }
    }

    /// The number whose first digit `first` was just consumed: takes the
    /// rest of the digit run, and gives an error token where the run's value
    /// does not fit an `i32`.
    fn read_number(&mut self, first: char) -> (r: Token)
        requires
            is_digit(first),
        ensures
            r@ == lex_at(seq![first] + old(self)@).0,
            final(self)@ == old(self)@.skip(lex_at(seq![first] + old(self)@).1 - 1),
    {
        let ghost s = seq![first] + self@;
        let mut digits = String::new();
        push_char(&mut digits, first);
        let mut value: i32 = (first as u32 - '0' as u32) as i32;
        let mut overflow = false;
        let ghost mut k: nat = 1;
        proof {
            lemma_digits_value_push(Seq::empty(), first);
            assert(Seq::<char>::empty().push(first) =~= s.take(1));
            assert(self@ =~= s.skip(1));
        }
        loop
            invariant
                1 <= k <= s.len(),
                s == seq![first] + old(self)@,
                digits@ == s.take(k as int),
                self@ == s.skip(k as int),
                forall|i: int| 0 <= i < k ==> is_digit(#[trigger] s[i]),
                !overflow ==> value == digits_value(digits@),
                overflow ==> digits_value(digits@) > i32::MAX,
                0 <= value,
            ensures
                k == s.len() || !is_digit(s[k as int]),
            decreases self@.len(),
        {
            match self.chars_iter.peek() {
                Some(nc) => {
                    let nc = *nc;
                    if '0' <= nc && nc <= '9' {
                        proof {
                            lemma_digits_value_push(digits@, nc);
                            assert(s.take(k as int).push(nc) =~= s.take(k + 1 as int));
                            assert(s.skip(k as int).drop_first() =~= s.skip(k + 1 as int));
                        }
                        push_char(&mut digits, nc);
                        self.chars_iter.next();
                        if !overflow {
                            let next: i64 = value as i64 * 10 + (nc as u32 - '0' as u32) as i64;
                            if next <= i32::MAX as i64 {
                                value = next as i32;
                            } else {
                                overflow = true;
                            }
                        }
                        proof {
                            k = k + 1;
                        }
                    } else {
                        break;
                    }
                },
                None => {
                    break;
                },
            }
        }
        proof {
            lemma_digit_run_len_exact(s, k);
            assert(old(self)@.skip(k - 1) =~= s.skip(k as int));
        }
        if overflow {
            let mut msg = String::from_str("Number out of range -> ");
            msg.append(digits.as_str());
            Token::Error(msg)
        } else {
            Token::Number(value)
        }
    }
}

} // verus!
