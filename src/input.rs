//! A character reader with lookahead that tracks the location of what it has consumed.
use vstd::prelude::*;
use crate::source::Location;

verus! {

/// The location of the `n`-th character of `s` (counting from 1): lines advance after
/// each `'\n'`, columns after every other character.
pub open spec fn loc_after(s: Seq<char>, n: int) -> Location
    decreases n,
{
    if n <= 1 {
        Location { line: 1, col_offset: 1 }
    } else {
        let l = loc_after(s, n - 1);
        if s[n - 1] == '\n' {
            Location { line: (l.line + 1) as u32, col_offset: 0 }
        } else {
            Location { line: l.line, col_offset: (l.col_offset + 1) as u32 }
        }
    }
}

/// Lines and columns never exceed the number of characters read.
pub proof fn lemma_loc_bound(s: Seq<char>, n: int)
    requires
        1 <= n <= u32::MAX,
    ensures
        1 <= loc_after(s, n).line <= n,
        loc_after(s, n).col_offset <= n,
    decreases n,
{
    if n > 1 {
        lemma_loc_bound(s, n - 1);
    }
}

/// How far the input has been taken into the lookahead once `m` characters are wanted there.
pub open spec fn primed_fetched(fetched: int, pos: int, eof: bool, len: int, m: int) -> int {
    if eof || fetched - pos >= m {
        fetched
    } else if pos + m <= len {
        pos + m
    } else {
        len
    }
}

/// Whether the end of input has been seen once `m` characters are wanted in the lookahead.
pub open spec fn primed_eof(fetched: int, pos: int, eof: bool, len: int, m: int) -> bool {
    eof || (fetched - pos < m && pos + m > len)
}

/// The characters of `s`, in order.
pub fn chars_of(s: &str) -> (r: Vec<char>)
    ensures
        r@ == s@,
{
    let mut v: Vec<char> = Vec::new();
    for c in it: s.chars()
        invariant
            v@ == it.history@,
    {
        v.push(c);
    }
    proof {
        broadcast use vstd::string::group_string_axioms;
    }
    v
}

/// Reads the characters of a text one at a time, with lookahead, keeping the location
/// of the last character consumed.
pub struct CharsReader {
    is_at_eof: bool,
    input_chars: Vec<char>,
    /// The lookahead holds `input_chars[pos..fetched]`.
    fetched: usize,
    pos: usize,
    loc: Option<Location>,
}

impl CharsReader {
    /// The whole text being read.
    pub closed spec fn source(&self) -> Seq<char> {
        self.input_chars@
    }

    /// How many characters have been consumed.
    pub closed spec fn consumed(&self) -> int {
        self.pos as int
    }

    /// How many characters have been taken from the text (consumed or in the lookahead).
    pub closed spec fn fetched(&self) -> int {
        self.fetched as int
    }

    /// Whether any character has been consumed.
    pub fn consumed_any(&self) -> (r: bool)
        ensures
            r == (self.consumed() > 0),
    {
        self.pos > 0
    }

    /// Whether an attempt to take a character past the end of the text was made.
    pub closed spec fn at_eof(&self) -> bool {
        self.is_at_eof
    }

    pub closed spec fn wf(&self) -> bool {
        &&& self.pos <= self.fetched <= self.input_chars@.len() <= u32::MAX
        &&& self.is_at_eof ==> self.fetched == self.input_chars@.len()
        &&& self.loc == if self.pos == 0 {
            None
        } else {
            Some(loc_after(self.input_chars@, self.pos as int))
        }
    }

    /// What well-formedness says of the counts.
    pub broadcast proof fn lemma_wf_bounds(r: &CharsReader)
        requires
            #[trigger] r.wf(),
        ensures
            0 <= r.consumed() <= r.fetched() <= r.source().len() <= u32::MAX,
            r.at_eof() ==> r.fetched() == r.source().len(),
    {
    }

    pub fn new(input: &str) -> (r: CharsReader)
        requires
            input@.len() <= u32::MAX,
        ensures
            r.wf(),
            r.source() == input@,
            r.consumed() == 0,
            r.fetched() == 0,
            !r.at_eof(),
    {
        CharsReader { is_at_eof: false, input_chars: chars_of(input), fetched: 0, pos: 0, loc: None }
    }

    /// The location of the last character consumed.
    pub fn loc(&self) -> (r: Location)
        requires
            self.wf(),
            self.consumed() > 0,
        ensures
            r == loc_after(self.source(), self.consumed()),
    {
        match self.loc {
            Some(l) => l,
            None => Location::start(),
        }
    }

    /// Consumes and returns the next character, if there is one.
    pub fn next(&mut self) -> (r: Option<char>)
        requires
            old(self).wf(),
        ensures
            final(self).wf(),
            final(self).source() == old(self).source(),
            old(self).consumed() < old(self).source().len() ==> {
                &&& r == Some(old(self).source()[old(self).consumed()])
                &&& final(self).consumed() == old(self).consumed() + 1
            },
            old(self).consumed() >= old(self).source().len() ==> {
                &&& r.is_none()
                &&& final(self).consumed() == old(self).consumed()
            },
            final(self).fetched() == primed_fetched(old(self).fetched(), old(self).consumed(),
                old(self).at_eof(), old(self).source().len() as int, 1),
            final(self).at_eof() == primed_eof(old(self).fetched(), old(self).consumed(),
                old(self).at_eof(), old(self).source().len() as int, 1),
    {
        self.prime(1);
        if self.pos < self.fetched {
            let c = self.input_chars[self.pos];
            proof {
                if self.pos > 0 {
                    lemma_loc_bound(self.input_chars@, self.pos as int);
                }
            }
            let next_loc = match self.loc {
                None => Location::start(),
                Some(l) => if c == '\n' { l.next_line() } else { l.next() },
            };
            self.loc = Some(next_loc);
            self.pos = self.pos + 1;
            Some(c)
        } else {
            None
        }
    }

    /// Whether the end of the text has not yet been seen.
    pub fn has_more(&self) -> (r: bool)
        ensures
            r == !self.at_eof(),
    {
        !self.is_at_eof
    }

    /// The next character, without consuming it.
    pub fn peek(&mut self) -> (r: Option<char>)
        requires
            old(self).wf(),
        ensures
            final(self).wf(),
            final(self).source() == old(self).source(),
            final(self).consumed() == old(self).consumed(),
            r == if old(self).consumed() < old(self).source().len() {
                Some(old(self).source()[old(self).consumed()])
            } else {
                None
            },
            final(self).fetched() == primed_fetched(old(self).fetched(), old(self).consumed(),
                old(self).at_eof(), old(self).source().len() as int, 1),
            final(self).at_eof() == primed_eof(old(self).fetched(), old(self).consumed(),
                old(self).at_eof(), old(self).source().len() as int, 1),
    {
        self.peek_n(0)
    }

    /// The character `n` places ahead of the next one, without consuming anything.
    pub fn peek_n(&mut self, n: u32) -> (r: Option<char>)
        requires
            old(self).wf(),
            n < u32::MAX,
        ensures
            final(self).wf(),
            final(self).source() == old(self).source(),
            final(self).consumed() == old(self).consumed(),
            r == if old(self).consumed() + n < old(self).source().len() {
                Some(old(self).source()[old(self).consumed() + n])
            } else {
                None
            },
            final(self).fetched() == primed_fetched(old(self).fetched(), old(self).consumed(),
                old(self).at_eof(), old(self).source().len() as int, n + 1),
            final(self).at_eof() == primed_eof(old(self).fetched(), old(self).consumed(),
                old(self).at_eof(), old(self).source().len() as int, n + 1),
    {
        self.prime(n + 1);
        if (n as usize) < self.fetched - self.pos {
            Some(self.input_chars[self.pos + n as usize])
        } else {
            None
        }
    }

    /// Takes characters from the text into the lookahead until it holds `min_chars`,
    /// or the end of the text is seen.
    fn prime(&mut self, min_chars: u32)
        requires
            old(self).wf(),
        ensures
            final(self).wf(),
            final(self).input_chars == old(self).input_chars,
            final(self).pos == old(self).pos,
            final(self).loc == old(self).loc,
            final(self).fetched == primed_fetched(old(self).fetched as int, old(self).pos as int,
                old(self).is_at_eof, old(self).input_chars@.len() as int, min_chars as int),
            final(self).is_at_eof == primed_eof(old(self).fetched as int, old(self).pos as int,
                old(self).is_at_eof, old(self).input_chars@.len() as int, min_chars as int),
    {
        let ghost f0 = self.fetched as int;
        let ghost e0 = self.is_at_eof;
        let ghost len = self.input_chars@.len() as int;
        let ghost m = min_chars as int;
        while self.fetched - self.pos < min_chars as usize && !self.is_at_eof
            invariant
                self.wf(),
                self.input_chars == old(self).input_chars,
                self.pos == old(self).pos,
                self.loc == old(self).loc,
                f0 == old(self).fetched,
                e0 == old(self).is_at_eof,
                len == self.input_chars@.len(),
                m == min_chars,
                (e0 || f0 - self.pos >= m) ==> (self.fetched == f0 && self.is_at_eof == e0),
                !(e0 || f0 - self.pos >= m) ==> {
                    &&& f0 <= self.fetched <= self.pos + m
                    &&& self.is_at_eof ==> len < self.pos + m
                },
            decreases self.input_chars@.len() - self.fetched + (if self.is_at_eof { 0int } else { 1int }),
        {
            if self.fetched < self.input_chars.len() {
                self.fetched = self.fetched + 1;
            } else {
                self.is_at_eof = true;
            }
        }
    }
}

} // verus!
