//! A forward-only cursor over the characters of a text, with one character
//! of look-ahead.
use vstd::prelude::*;
use vstd::std_specs::iter::IteratorSpec;

verus! {

/// The characters of a text and the position of the next one to hand out.
/// Its view is the part of the text not yet consumed.
#[derive(Debug)]
pub struct CharCursor {
    chars: Vec<char>,
    pos: usize,
}

impl View for CharCursor {
    type V = Seq<char>;

    closed spec fn view(&self) -> Seq<char> {
        self.chars@.skip(self.pos as int)
    }
}

impl CharCursor {
    #[verifier::type_invariant]
    closed spec fn pos_in_bounds(self) -> bool {
        self.pos <= self.chars@.len()
    }

    /// A cursor at the first character of `text`.
    pub fn new(text: &str) -> (r: Self)
        ensures
            r@ == text@,
    {
        let mut it = text.chars();
        let mut chars: Vec<char> = Vec::new();
        loop
            invariant
                chars@ + it.remaining() == text@,
                it.decrease() is Some,
            ensures
                chars@ == text@,
            decreases it.decrease()->0,
        {
            match it.next() {
                Some(c) => {
                    chars.push(c);
                },
                None => {
                    break;
                },
            }
        }
        assert(chars@.skip(0) =~= chars@);
        CharCursor { chars, pos: 0 }
    }

    /// The next character, left in place.
    pub fn peek(&self) -> (r: Option<&char>)
        ensures
            self@.len() == 0 ==> r is None,
            self@.len() > 0 ==> r == Some(&self@[0]),
    {
        proof {
            use_type_invariant(self);
        }
        if self.pos < self.chars.len() {
            Some(&self.chars[self.pos])
        } else {
            None
        }
    }

    /// Consumes and returns the next character.
    pub fn next(&mut self) -> (r: Option<char>)
        ensures
            old(self)@.len() == 0 ==> r is None && final(self)@ == old(self)@,
            old(self)@.len() > 0 ==> r == Some(old(self)@[0]) && final(self)@
                == old(self)@.drop_first(),
    {
        proof {
            use_type_invariant(&*self);
        }
        if self.pos < self.chars.len() {
            let c = self.chars[self.pos];
            self.pos = self.pos + 1;
            assert(self.chars@.skip(self.pos as int) =~= old(self)@.drop_first());
            Some(c)
        } else {
            None
        }
    }
}

} // verus!
