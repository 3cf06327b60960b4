//! A cursor over a character source with one character of lookahead.

use vstd::prelude::*;

verus! {

/// Reads a character source front to back and lets the reader look at the
/// next character before taking it. At most one character is ever buffered.
pub struct Lookahead {
    source: Vec<char>,
    /// Index of the next character to pull from `source`.
    pulled: usize,
    peeked: Option<char>,
}

impl Lookahead {
    /// At most one character is buffered, and it is the one last pulled.
    #[verifier::type_invariant]
    spec fn wf(&self) -> bool {
        &&& self.pulled <= self.source@.len()
        &&& match self.peeked {
            Some(c) => self.pulled >= 1 && self.source@[self.pulled - 1] == c,
            None => true,
        }
    }

    /// All the characters of the source, read or not.
    pub closed spec fn source(&self) -> Seq<char> {
        self.source@
    }

    /// How many characters `next` has handed out so far.
    pub closed spec fn offset(&self) -> int {
        if self.peeked is Some {
            self.pulled - 1
        } else {
            self.pulled as int
        }
    }

    /// A cursor at the start of `source`.
    pub fn new(source: Vec<char>) -> (r: Lookahead)
        ensures
            r.source() == source@,
            r.offset() == 0,
    {
        Lookahead { source, pulled: 0, peeked: None }
    }

    /// The next character, which stays in place; `None` at the end.
    pub fn peek(&mut self) -> (r: Option<char>)
        ensures
            final(self).source() == old(self).source(),
            final(self).offset() == old(self).offset(),
            0 <= old(self).offset() <= old(self).source().len(),
            r == if old(self).offset() < old(self).source().len() {
                Some(old(self).source()[old(self).offset()])
            } else {
                None
            },
    {
        proof {
            use_type_invariant(&*self);
        }
        match self.peeked {
            Some(c) => Some(c),
            None => {
                if self.pulled < self.source.len() {
                    let c = self.source[self.pulled];
                    self.pulled = self.pulled + 1;
                    self.peeked = Some(c);
                    Some(c)
                } else {
                    None
                }
            },
        }
    }

    /// The next character, which is consumed; `None` at the end.
    pub fn next(&mut self) -> (r: Option<char>)
        ensures
            final(self).source() == old(self).source(),
            0 <= old(self).offset() <= old(self).source().len(),
            r == if old(self).offset() < old(self).source().len() {
                Some(old(self).source()[old(self).offset()])
            } else {
                None
            },
            final(self).offset() == if old(self).offset() < old(self).source().len() {
                old(self).offset() + 1
            } else {
                old(self).offset()
            },
    {
        proof {
            use_type_invariant(&*self);
        }
        match self.peeked {
            Some(c) => {
                self.peeked = None;
                Some(c)
            },
            None => {
                if self.pulled < self.source.len() {
                    let c = self.source[self.pulled];
                    self.pulled = self.pulled + 1;
                    Some(c)
                } else {
                    None
                }
            },
        }
    }
}

} // verus!
