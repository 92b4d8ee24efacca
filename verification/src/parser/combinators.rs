use vstd::prelude::*;

use crate::ast::{Pos, SourceInfo, Whitespace};
use crate::error::{expecting_at, Error, ParseError};
use crate::reader::{col_of, line_of, Reader};

verus! {

/// The text `lit` stands verbatim at offset `i` of `buf`.
pub open spec fn starts_with_at(buf: Seq<char>, i: int, lit: Seq<char>) -> bool {
    &&& 0 <= i
    &&& i + lit.len() <= buf.len()
    &&& buf.subrange(i, i + lit.len()) == lit
}

/// `c` counts as horizontal whitespace between tokens.
pub open spec fn is_space(c: char) -> bool {
    c == ' ' || c == '\t'
}

/// The first offset at or after `i` that does not hold a space or tab.
pub open spec fn spaces_end(buf: Seq<char>, i: int) -> int
    decreases buf.len() - i,
{
    if 0 <= i < buf.len() && is_space(buf[i]) {
        spaces_end(buf, i + 1)
    } else {
        i
    }
}

pub proof fn lemma_spaces_end(buf: Seq<char>, i: int)
    requires
        0 <= i <= buf.len(),
    ensures
        i <= spaces_end(buf, i) <= buf.len(),
    decreases buf.len() - i,
{
    if i < buf.len() && is_space(buf[i]) {
        lemma_spaces_end(buf, i + 1);
    }
}

/// Consume `s` verbatim, or fail non-recoverably at the position where the
/// attempt started, with the reader restored to that position: once the
/// caller asks for this exact text it has committed to the construct.
pub fn literal(s: &str, reader: &mut Reader) -> (r: Result<(), Error>)
    requires
        old(reader).wf(),
    ensures
        final(reader).wf(),
        final(reader).buffer@ == old(reader).buffer@,
        r is Ok <==> starts_with_at(old(reader).buffer@, old(reader).state.cursor as int, s@),
        r is Ok ==> final(reader).state.cursor == old(reader).state.cursor + s@.len(),
        r is Err ==> final(reader).state == old(reader).state && expecting_at(
            r->Err_0,
            old(reader).state.pos.line as int,
            old(reader).state.pos.column as int,
            false,
            s@,
        ),
{
    let ghost buf = reader.buffer@;
    let start = reader.state;
    let n = s.unicode_len();
    let mut i: usize = 0;
    while i < n
        invariant
            reader.wf(),
            reader.buffer@ == buf,
            buf == old(reader).buffer@,
            start == old(reader).state,
            i <= n,
            n == s@.len(),
            start.cursor + i == reader.state.cursor,
            start.cursor + n >= reader.state.cursor,
            Reader::wf_at(buf, start),
            forall|j: int| 0 <= j < i ==> buf[start.cursor + j] == s@[j],
        decreases n - i,
    {
        let matched: bool = match reader.read() {
            Some(c) => c == s.get_char(i),
            None => false,
        };
        if !matched {
            proof {
                if starts_with_at(buf, start.cursor as int, s@) {
                    assert(buf.subrange(
                        start.cursor as int,
                        start.cursor + s@.len(),
                    )[i as int] == s@[i as int]);
                }
            }
            reader.state = start;
            return Err(Error {
                pos: start.pos,
                recoverable: false,
                inner: ParseError::Expecting { value: s.to_owned() },
            });
        }
        i += 1;
    }
    proof {
        assert(buf.subrange(start.cursor as int, start.cursor + s@.len()) =~= s@);
    }
    Ok(())
}

/// Like `literal`, but fail recoverably: used to probe which grammar
/// alternative applies, without commitment.
pub fn try_literal(s: &str, reader: &mut Reader) -> (r: Result<(), Error>)
    requires
        old(reader).wf(),
    ensures
        final(reader).wf(),
        final(reader).buffer@ == old(reader).buffer@,
        r is Ok <==> starts_with_at(old(reader).buffer@, old(reader).state.cursor as int, s@),
        r is Ok ==> final(reader).state.cursor == old(reader).state.cursor + s@.len(),
        r is Err ==> final(reader).state == old(reader).state && expecting_at(
            r->Err_0,
            old(reader).state.pos.line as int,
            old(reader).state.pos.column as int,
            true,
            s@,
        ),
{
    match literal(s, reader) {
        Ok(()) => Ok(()),
        Err(e) => Err(Error { pos: e.pos, recoverable: true, inner: e.inner }),
    }
}

/// Greedily consume spaces and tabs; always succeeds, possibly consuming
/// nothing, and returns the consumed text verbatim with its span.
pub fn zero_or_more_spaces(reader: &mut Reader) -> (r: Whitespace)
    requires
        old(reader).wf(),
    ensures
        final(reader).wf(),
        final(reader).buffer@ == old(reader).buffer@,
        old(reader).state.cursor <= final(reader).state.cursor,
        final(reader).state.cursor == spaces_end(
            old(reader).buffer@,
            old(reader).state.cursor as int,
        ),
        r.value@ == old(reader).buffer@.subrange(
            old(reader).state.cursor as int,
            final(reader).state.cursor as int,
        ),
        r.source_info == (SourceInfo { start: old(reader).state.pos, end: final(reader).state.pos }),
{
    let ghost buf = reader.buffer@;
    let start = reader.state;
    let mut value = String::new();
    loop
        invariant
            reader.wf(),
            reader.buffer@ == buf,
            buf == old(reader).buffer@,
            start == old(reader).state,
            start.cursor <= reader.state.cursor <= buf.len(),
            value@ == buf.subrange(start.cursor as int, reader.state.cursor as int),
            spaces_end(buf, reader.state.cursor as int) == spaces_end(buf, start.cursor as int),
        ensures
            reader.wf(),
            reader.buffer@ == buf,
            reader.state.cursor == spaces_end(buf, start.cursor as int),
            value@ == buf.subrange(start.cursor as int, reader.state.cursor as int),
        decreases buf.len() - reader.state.cursor,
    {
        let next = reader.peek();
        let take: bool = match next {
            Some(c) => c == ' ' || c == '\t',
            None => false,
        };
        if !take {
            break;
        }
        let c = reader.read().unwrap();
        crate::text::push_char(&mut value, c);
        proof {
            assert(value@ =~= buf.subrange(start.cursor as int, reader.state.cursor as int));
        }
    }
    Whitespace {
        value,
        source_info: SourceInfo { start: start.pos, end: reader.state.pos },
    }
}

} // verus!
