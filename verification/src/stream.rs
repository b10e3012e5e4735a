use vstd::prelude::*;
use vstd::string::StrSliceExecFns;

verus! {

/// A restartable source of tokens. `uncons` consumes the stream by value
/// and hands back the tail; `dup` produces an independent copy with the
/// same remaining tokens, so that combinators may speculatively try
/// alternatives and fall back without affecting the original.
pub trait Stream: Sized {
    type Item;

    /// The remaining tokens.
    spec fn items(&self) -> Seq<Self::Item>;

    /// Splits the stream into its first token and the remainder, or
    /// signals exhaustion. Both outcomes are total: no panics.
    fn uncons(self) -> (r: Result<(Self::Item, Self), ()>)
        ensures
            match r {
                Ok((t, rest)) => self.items().len() > 0 && t == self.items()[0]
                    && rest.items() == self.items().skip(1),
                Err(()) => self.items().len() == 0,
            },
    ;

    /// An independent copy: consuming the copy does not affect the
    /// original.
    fn dup(&self) -> (r: Self)
        ensures
            r.items() == self.items(),
    ;

    /// The number of remaining tokens (streams are in-memory views, so
    /// the count fits in a machine word).
    fn len(&self) -> (n: usize)
        ensures
            n == self.items().len(),
    ;
}

impl<'a> Stream for &'a str {
    type Item = char;

    open spec fn items(&self) -> Seq<char> {
        (*self)@
    }

    fn uncons(self) -> (r: Result<(char, &'a str), ()>) {
        let n = self.unicode_len();
        if n == 0 {
            Err(())
        } else {
            let c = self.get_char(0);
            let rest = self.substring_char(1, n);
            proof {
                assert(rest@ =~= self@.skip(1));
            }
            Ok((c, rest))
        }
    }

    fn dup(&self) -> (r: &'a str) {
        *self
    }

    fn len(&self) -> (n: usize) {
        self.unicode_len()
    }
}

impl<'a, T> Stream for &'a [T] {
    type Item = &'a T;

    open spec fn items(&self) -> Seq<&'a T> {
        Seq::new((*self)@.len(), |i: int| &(*self)@[i])
    }

    fn uncons(self) -> (r: Result<(&'a T, &'a [T]), ()>) {
        if self.len() == 0 {
            Err(())
        } else {
            let t = vstd::slice::slice_index_get(self, 0);
            let rest = vstd::slice::slice_subrange(self, 1, self.len());
            proof {
                assert(rest.items() =~= self.items().skip(1));
            }
            Ok((t, rest))
        }
    }

    fn dup(&self) -> (r: &'a [T]) {
        *self
    }

    fn len(&self) -> (n: usize) {
        (*self).len()
    }
}

/// A cloneable character iterator: a buffer of characters together with a
/// cursor. The third stream shape, for grammars that walk input token by
/// token rather than through a string slice.
#[derive(Debug, PartialEq)]
pub struct CharIterator {
    pub chars: Vec<char>,
    pub index: usize,
}

impl CharIterator {
    /// The characters not yet consumed.
    pub open spec fn remaining(&self) -> Seq<char> {
        if self.index <= self.chars@.len() {
            self.chars@.skip(self.index as int)
        } else {
            Seq::empty()
        }
    }

    /// A fresh iterator over the characters of `s`.
    pub fn new(s: &str) -> (it: CharIterator)
        ensures
            it.remaining() == s@,
    {
        let n = s.unicode_len();
        let mut chars: Vec<char> = Vec::new();
        let mut i: usize = 0;
        proof {
            assert(chars@ =~= s@.take(0));
        }
        while i < n
            invariant
                n == s@.len(),
                0 <= i <= n,
                chars@ == s@.take(i as int),
            decreases n - i,
        {
            chars.push(s.get_char(i));
            proof {
                assert(chars@ =~= s@.take(i as int + 1));
            }
            i = i + 1;
        }
        let it = CharIterator { chars, index: 0 };
        proof {
            assert(it.remaining() =~= s@);
        }
        it
    }

    /// Yields the next character and advances, or `None` at the end.
    pub fn next(&mut self) -> (r: Option<char>)
        ensures
            match r {
                Some(c) => old(self).remaining().len() > 0 && c == old(self).remaining()[0]
                    && final(self).remaining() == old(self).remaining().skip(1),
                None => old(self).remaining().len() == 0 && *final(self) == *old(self),
            },
    {
        if self.index < self.chars.len() {
            let c = self.chars[self.index];
            self.index = self.index + 1;
            proof {
                assert(self.remaining() =~= old(self).remaining().skip(1));
            }
            Some(c)
        } else {
            None
        }
    }
}

impl Stream for CharIterator {
    type Item = char;

    open spec fn items(&self) -> Seq<char> {
        self.remaining()
    }

    fn uncons(self) -> (r: Result<(char, CharIterator), ()>) {
        let mut it = self;
        match it.next() {
            Some(c) => Ok((c, it)),
            None => Err(()),
        }
    }

    fn dup(&self) -> (r: CharIterator) {
        let n = self.chars.len();
        let mut chars: Vec<char> = Vec::new();
        let mut i: usize = 0;
        proof {
            assert(chars@ =~= self.chars@.take(0));
        }
        while i < n
            invariant
                n == self.chars@.len(),
                0 <= i <= n,
                chars@ == self.chars@.take(i as int),
            decreases n - i,
        {
            chars.push(self.chars[i]);
            proof {
                assert(chars@ =~= self.chars@.take(i as int + 1));
            }
            i = i + 1;
        }
        proof {
            assert(self.chars@.take(n as int) =~= self.chars@);
        }
        CharIterator { chars, index: self.index }
    }

    fn len(&self) -> (n: usize) {
        if self.index <= self.chars.len() {
            self.chars.len() - self.index
        } else {
            0
        }
    }
}

} // verus!
