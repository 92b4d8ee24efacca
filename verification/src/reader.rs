use vstd::prelude::*;

use crate::ast::Pos;

verus! {

/// The line number (1-based) of the position `n` characters into `s`.
pub open spec fn line_of(s: Seq<char>, n: int) -> int
    decreases n,
{
    if n <= 0 {
        1
    } else if s[n - 1] == '\n' {
        line_of(s, n - 1) + 1
    } else {
        line_of(s, n - 1)
    }
}

/// The column number (1-based) of the position `n` characters into `s`.
pub open spec fn col_of(s: Seq<char>, n: int) -> int
    decreases n,
{
    if n <= 0 {
        1
    } else if s[n - 1] == '\n' {
        1
    } else {
        col_of(s, n - 1) + 1
    }
}

pub proof fn lemma_pos_bounds(s: Seq<char>, n: int)
    requires
        0 <= n,
    ensures
        1 <= line_of(s, n) <= n + 1,
        1 <= col_of(s, n) <= n + 1,
    decreases n,
{
    if n > 0 {
        lemma_pos_bounds(s, n - 1);
    }
}

/// The line/column rendering of the position `n` characters into `s`.
pub open spec fn pos_of(s: Seq<char>, n: int) -> Pos {
    Pos { line: line_of(s, n) as usize, column: col_of(s, n) as usize }
}

/// The span between two offsets, rendered as line/column positions.
pub open spec fn span_of(s: Seq<char>, a: int, b: int) -> crate::ast::SourceInfo {
    crate::ast::SourceInfo { start: pos_of(s, a), end: pos_of(s, b) }
}

/// The whole position of a cursor: byte offset plus its line/column rendering.
#[derive(Clone, Copy, Debug, PartialEq, Eq, Structural)]
pub struct ReaderState {
    pub cursor: usize,
    pub pos: Pos,
}

/// A cursor over the source text. The line/column of `state` always reflect
/// the position of `state.cursor` in `buffer`; backtracking saves and
/// restores the whole state, never a part of it.
pub struct Reader {
    pub buffer: Vec<char>,
    pub state: ReaderState,
}

impl Reader {
    /// `st` is a coherent position inside `buf`.
    pub open spec fn wf_at(buf: Seq<char>, st: ReaderState) -> bool {
        &&& buf.len() < usize::MAX
        &&& st.cursor <= buf.len()
        &&& st.pos.line == line_of(buf, st.cursor as int)
        &&& st.pos.column == col_of(buf, st.cursor as int)
    }

    pub open spec fn wf(self) -> bool {
        Self::wf_at(self.buffer@, self.state)
    }

    pub fn init(s: &str) -> (r: Reader)
        requires
            s@.len() < usize::MAX,
        ensures
            r.wf(),
            r.buffer@ == s@,
            r.state.cursor == 0,
    {
        let n = s.unicode_len();
        let mut buffer: Vec<char> = Vec::new();
        let mut i: usize = 0;
        while i < n
            invariant
                i <= n,
                n == s@.len(),
                buffer@ == s@.subrange(0, i as int),
            decreases n - i,
        {
            buffer.push(s.get_char(i));
            i += 1;
        }
        proof {
            assert(buffer@ =~= s@);
        }
        Reader { buffer, state: ReaderState { cursor: 0, pos: Pos { line: 1, column: 1 } } }
    }

    /// The character under the cursor, without advancing.
    pub fn peek(&self) -> (r: Option<char>)
        requires
            self.wf(),
        ensures
            self.state.cursor < self.buffer@.len() ==> r == Some(
                self.buffer@[self.state.cursor as int],
            ),
            self.state.cursor == self.buffer@.len() ==> r is None,
    {
        if self.state.cursor < self.buffer.len() {
            Some(self.buffer[self.state.cursor])
        } else {
            None
        }
    }

    /// Read one character, advancing the cursor and the line/column with it.
    pub fn read(&mut self) -> (r: Option<char>)
        requires
            old(self).wf(),
        ensures
            final(self).wf(),
            final(self).buffer@ == old(self).buffer@,
            old(self).state.cursor < old(self).buffer@.len() ==> {
                &&& r == Some(old(self).buffer@[old(self).state.cursor as int])
                &&& final(self).state.cursor == old(self).state.cursor + 1
            },
            old(self).state.cursor == old(self).buffer@.len() ==> r is None && final(self).state
                == old(self).state,
    {
        if self.state.cursor < self.buffer.len() {
            let c = self.buffer[self.state.cursor];
            proof {
                lemma_pos_bounds(self.buffer@, self.state.cursor as int);
                lemma_pos_bounds(self.buffer@, self.state.cursor + 1);
            }
            let line: usize = if c == '\n' {
                self.state.pos.line + 1
            } else {
                self.state.pos.line
            };
            let column: usize = if c == '\n' {
                1
            } else {
                self.state.pos.column + 1
            };
            self.state = ReaderState {
                cursor: self.state.cursor + 1,
                pos: Pos { line, column },
            };
            Some(c)
        } else {
            None
        }
    }

    /// Read up to `n` characters, returning them as a string.
    pub fn read_n(&mut self, n: usize) -> (r: String)
        requires
            old(self).wf(),
        ensures
            final(self).wf(),
            final(self).buffer@ == old(self).buffer@,
            final(self).state.cursor == if old(self).state.cursor + n <= old(self).buffer@.len() {
                old(self).state.cursor + n
            } else {
                old(self).buffer@.len() as int
            },
            r@ == old(self).buffer@.subrange(
                old(self).state.cursor as int,
                final(self).state.cursor as int,
            ),
    {
        let mut r = String::new();
        let mut i: usize = 0;
        while i < n
            invariant
                self.wf(),
                self.buffer@ == old(self).buffer@,
                i <= n,
                old(self).state.cursor + i >= self.state.cursor,
                self.state.cursor == if old(self).state.cursor + i <= self.buffer@.len() {
                    old(self).state.cursor + i
                } else {
                    self.buffer@.len() as int
                },
                r@ == self.buffer@.subrange(
                    old(self).state.cursor as int,
                    self.state.cursor as int,
                ),
            decreases n - i,
        {
            match self.read() {
                Some(c) => {
                    crate::text::push_char(&mut r, c);
                },
                None => {},
            }
            i += 1;
            proof {
                assert(r@ =~= self.buffer@.subrange(
                    old(self).state.cursor as int,
                    self.state.cursor as int,
                ));
            }
        }
        r
    }
}

} // verus!
