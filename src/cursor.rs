use vstd::prelude::*;

use crate::text::{chars_of, find_char, index_of, lemma_index_of_bounds, slice_of};

verus! {

/// A line without the carriage return that may end it.
pub open spec fn strip_cr(l: Seq<char>) -> Seq<char> {
    if l.len() > 0 && l.last() == '\r' {
        l.drop_last()
    } else {
        l
    }
}

/// The lines of `s` from index `i` on: pieces between line feeds, each without a
/// final carriage return, and no empty piece after a final line feed.
pub open spec fn lines_from(s: Seq<char>, i: int) -> Seq<Seq<char>>
    decreases s.len() + 1 - i,
{
    if i < 0 || i >= s.len() {
        seq![]
    } else {
        let e = index_of(s, '\n', i);
        if e < i || e > s.len() {
            seq![]
        } else {
            seq![strip_cr(s.subrange(i, e))] + lines_from(s, e + 1)
        }
    }
}

/// The lines of a text.
pub open spec fn lines_of(s: Seq<char>) -> Seq<Seq<char>> {
    lines_from(s, 0)
}

/// Hands out the lines of a captured text one at a time.
pub struct LineCursor {
    text: Vec<char>,
    pos: usize,
}

impl View for LineCursor {
    type V = Seq<Seq<char>>;

    /// The lines that are still to come.
    closed spec fn view(&self) -> Seq<Seq<char>> {
        lines_from(self.text@, self.pos as int)
    }
}

impl LineCursor {
    pub fn new(text: &str) -> (c: LineCursor)
        ensures
            c@ == lines_of(text@),
    {
        LineCursor { text: chars_of(text), pos: 0 }
    }

    /// Whether every line has been handed out.
    pub fn is_done(&self) -> (r: bool)
        ensures
            r == (self@.len() == 0),
    {
        proof {
            if self.pos < self.text.len() {
                lemma_index_of_bounds(self.text@, '\n', self.pos as int);
            }
        }
        self.pos >= self.text.len()
    }

    /// Consumes the next line, if any is left.
    pub fn next(&mut self) -> (r: Option<Vec<char>>)
        ensures
            old(self)@.len() == 0 ==> r is None && final(self)@ == old(self)@,
            old(self)@.len() > 0 ==> r is Some && r->0@ == old(self)@[0] && final(self)@
                == old(self)@.drop_first(),
    {
        if self.pos >= self.text.len() {
            return None;
        }
        let e = find_char(&self.text, '\n', self.pos);
        proof {
            lemma_index_of_bounds(self.text@, '\n', self.pos as int);
        }
        let mut end = e;
        if end > self.pos && self.text[end - 1] == '\r' {
            end = end - 1;
        }
        let line = slice_of(&self.text, self.pos, end);
        let ghost old_pos = self.pos;
        if e == self.text.len() {
            self.pos = e;
        } else {
            self.pos = e + 1;
        }
        proof {
            let s = self.text@;
            let whole = s.subrange(old_pos as int, e as int);
            let rest = lines_from(s, e + 1);
            assert(lines_from(s, old_pos as int) == seq![strip_cr(whole)] + rest);
            assert((seq![strip_cr(whole)] + rest).drop_first() =~= rest);
            if end < e {
                assert(strip_cr(whole) =~= s.subrange(old_pos as int, end as int));
            }
        }
        Some(line)
    }
}

} // verus!
