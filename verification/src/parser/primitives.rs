use vstd::prelude::*;

use crate::ast::{Bytes, Filename, SourceInfo, Template, TemplateElement, Whitespace};
use crate::error::{expecting_at, Error, ParseError};
use crate::parser::combinators::{starts_with_at, try_literal};
use crate::reader::{span_of, Reader, ReaderState};

verus! {

/// `c` may appear in a file name: anything but a terminator, whitespace or a
/// comment marker.
pub open spec fn is_filename_char(c: char) -> bool {
    c != ';' && c != ' ' && c != '\t' && c != '\n' && c != '\r' && c != '#'
}

/// The first offset at or after `i` that does not hold a file-name character.
pub open spec fn filename_end(buf: Seq<char>, i: int) -> int
    decreases buf.len() - i,
{
    if 0 <= i < buf.len() && is_filename_char(buf[i]) {
        filename_end(buf, i + 1)
    } else {
        i
    }
}

/// Consume a non-empty file name; an empty one is a hard syntax error, since
/// the caller has already committed to a file construct.
pub fn filename(reader: &mut Reader) -> (r: Result<Filename, Error>)
    requires
        old(reader).wf(),
    ensures
        final(reader).wf(),
        final(reader).buffer@ == old(reader).buffer@,
        ({
            let buf = old(reader).buffer@;
            let i = old(reader).state.cursor as int;
            let e = filename_end(buf, i);
            if e == i {
                &&& r is Err
                &&& final(reader).state == old(reader).state
                &&& expecting_at(
                    r->Err_0,
                    old(reader).state.pos.line as int,
                    old(reader).state.pos.column as int,
                    false,
                    "filename"@,
                )
            } else {
                &&& r is Ok
                &&& final(reader).state.cursor == e
                &&& r->Ok_0.value@ == buf.subrange(i, e)
                &&& r->Ok_0.source_info == (SourceInfo {
                    start: old(reader).state.pos,
                    end: final(reader).state.pos,
                })
            }
        }),
{
    let ghost buf = reader.buffer@;
    let start = reader.state;
    let mut value = String::new();
    loop
        invariant
            reader.wf(),
            reader.buffer@ == buf,
            buf == old(reader).buffer@,
            start == old(reader).state,
            start.cursor <= reader.state.cursor <= buf.len(),
            value@ == buf.subrange(start.cursor as int, reader.state.cursor as int),
            filename_end(buf, reader.state.cursor as int) == filename_end(
                buf,
                start.cursor as int,
            ),
        ensures
            reader.wf(),
            reader.buffer@ == buf,
            reader.state.cursor == filename_end(buf, start.cursor as int),
            value@ == buf.subrange(start.cursor as int, reader.state.cursor as int),
        decreases buf.len() - reader.state.cursor,
    {
        let next = reader.peek();
        let take: bool = match next {
            Some(c) => c != ';' && c != ' ' && c != '\t' && c != '\n' && c != '\r' && c != '#',
            None => false,
        };
        if !take {
            break;
        }
        let c = reader.read().unwrap();
        crate::text::push_char(&mut value, c);
        proof {
            assert(value@ =~= buf.subrange(start.cursor as int, reader.state.cursor as int));
        }
    }
    if reader.state.cursor == start.cursor {
        return Err(Error {
            pos: start.pos,
            recoverable: false,
            inner: ParseError::Expecting { value: "filename".to_owned() },
        });
    }
    Ok(Filename {
        value,
        source_info: SourceInfo { start: start.pos, end: reader.state.pos },
    })
}

/// The three backquotes that fence a raw string.
pub open spec fn ticks() -> Seq<char> {
    seq!['`', '`', '`']
}

/// The first offset at or after `i` where a closing fence stands, or the end
/// of the text if there is none.
pub open spec fn close_of(buf: Seq<char>, i: int) -> int
    decreases buf.len() - i,
{
    if !(0 <= i <= buf.len()) {
        i
    } else if starts_with_at(buf, i, ticks()) {
        i
    } else if i < buf.len() {
        close_of(buf, i + 1)
    } else {
        i
    }
}

pub proof fn lemma_close_of(buf: Seq<char>, i: int)
    requires
        0 <= i <= buf.len(),
    ensures
        i <= close_of(buf, i) <= buf.len(),
        close_of(buf, i) < buf.len() ==> starts_with_at(buf, close_of(buf, i), ticks()),
    decreases buf.len() - i,
{
    if !starts_with_at(buf, i, ticks()) && i < buf.len() {
        lemma_close_of(buf, i + 1);
    }
}

/// Is there a backquote fence at offset `i`? Decided by looking at the three
/// characters, without consuming anything.
fn at_ticks(reader: &Reader) -> (r: bool)
    requires
        reader.wf(),
    ensures
        r == starts_with_at(reader.buffer@, reader.state.cursor as int, ticks()),
{
    let c = reader.state.cursor;
    let len = reader.buffer.len();
    let r = len >= 3 && c <= len - 3 && *reader.buffer.get(c).unwrap() == '`'
        && *reader.buffer.get(c + 1).unwrap() == '`' && *reader.buffer.get(c + 2).unwrap() == '`';
    proof {
        if r {
            assert(reader.buffer@.subrange(c as int, c + 3) =~= ticks());
        } else if starts_with_at(reader.buffer@, c as int, ticks()) {
            assert(reader.buffer@.subrange(c as int, c + 3)[0] == '`');
            assert(reader.buffer@.subrange(c as int, c + 3)[1] == '`');
            assert(reader.buffer@.subrange(c as int, c + 3)[2] == '`');
        }
    }
    r
}

/// The full outcome of the raw-string parser at `pre` in `buf`: recoverable
/// exactly while the opening fence has not matched, with the reader
/// restored; past it, success is owed whenever a closing fence follows,
/// with the exact text, spans and cursor, and a missing closing fence is a
/// hard error at the exact position where the text ran out.
pub open spec fn raw_string_post(
    buf: Seq<char>,
    pre: ReaderState,
    post: ReaderState,
    r: Result<Bytes, Error>,
) -> bool {
    let i = pre.cursor as int;
    if !starts_with_at(buf, i, ticks()) {
        &&& r is Err
        &&& r->Err_0.recoverable
        &&& post == pre
        &&& expecting_at(r->Err_0, pre.pos.line as int, pre.pos.column as int, true, ticks())
    } else {
        let j = if i + 3 < buf.len() && buf[i + 3] == '\n' {
            i + 4
        } else {
            i + 3
        };
        let cl = close_of(buf, j);
        if cl < buf.len() {
            &&& r matches Ok(b) && b matches Bytes::RawString { newline, value }
                && newline.value@ == buf.subrange(i + 3, j) && newline.source_info == span_of(
                buf,
                i + 3,
                j,
            ) && value.quotes == false && value.elements@.len() <= 1 && template_text(value)
                == buf.subrange(j, cl) && value.source_info == span_of(buf, j, cl)
            &&& post.cursor == cl + 3
        } else {
            &&& r is Err
            &&& !r->Err_0.recoverable
            &&& expecting_at(
                r->Err_0,
                crate::reader::line_of(buf, buf.len() as int),
                crate::reader::col_of(buf, buf.len() as int),
                false,
                ticks(),
            )
        }
    }
}

/// Parse a fenced raw string: three backquotes, an optional newline, the
/// text up to the closing fence. The outcome is exactly `raw_string_post`.
pub fn raw_string(reader: &mut Reader) -> (r: Result<Bytes, Error>)
    requires
        old(reader).wf(),
    ensures
        final(reader).wf(),
        final(reader).buffer@ == old(reader).buffer@,
        raw_string_post(old(reader).buffer@, old(reader).state, final(reader).state, r),
{
    let ghost buf = reader.buffer@;
    match try_literal("```", reader) {
        Ok(()) => {
            proof {
                reveal_strlit("```");
                assert("```"@ =~= ticks());
            }
        },
        Err(e) => {
            proof {
                reveal_strlit("```");
                assert("```"@ =~= ticks());
            }
            return Err(e);
        },
    }
    let nl_start = reader.state;
    let mut nl = String::new();
    let has_nl: bool = match reader.peek() {
        Some(c) => c == '\n',
        None => false,
    };
    if has_nl {
        let c = reader.read().unwrap();
        crate::text::push_char(&mut nl, c);
        proof {
            assert(nl@ =~= buf.subrange(nl_start.cursor as int, reader.state.cursor as int));
        }
    } else {
        proof {
            assert(nl@ =~= buf.subrange(nl_start.cursor as int, reader.state.cursor as int));
        }
    }
    let newline = Whitespace {
        value: nl,
        source_info: SourceInfo { start: nl_start.pos, end: reader.state.pos },
    };
    let content_start = reader.state;
    let mut content = String::new();
    loop
        invariant
            reader.wf(),
            reader.buffer@ == buf,
            buf == old(reader).buffer@,
            Reader::wf_at(buf, content_start),
            starts_with_at(buf, old(reader).state.cursor as int, ticks()),
            content_start.cursor as int == ({
                let i = old(reader).state.cursor as int;
                if i + 3 < buf.len() && buf[i + 3] == '\n' {
                    i + 4
                } else {
                    i + 3
                }
            }),
            content_start.cursor <= reader.state.cursor <= buf.len(),
            content@ == buf.subrange(content_start.cursor as int, reader.state.cursor as int),
            close_of(buf, reader.state.cursor as int) == close_of(
                buf,
                content_start.cursor as int,
            ),
        ensures
            reader.wf(),
            reader.buffer@ == buf,
            reader.state.cursor == close_of(buf, content_start.cursor as int),
            starts_with_at(buf, reader.state.cursor as int, ticks()),
            content@ == buf.subrange(content_start.cursor as int, reader.state.cursor as int),
        decreases buf.len() - reader.state.cursor,
    {
        if at_ticks(reader) {
            break;
        }
        match reader.read() {
            Some(c) => {
                crate::text::push_char(&mut content, c);
                proof {
                    assert(content@ =~= buf.subrange(
                        content_start.cursor as int,
                        reader.state.cursor as int,
                    ));
                }
            },
            None => {
                proof {
                    lemma_close_of(buf, content_start.cursor as int);
                    reveal_strlit("```");
                    assert("```"@ =~= ticks());
                }
                return Err(Error {
                    pos: reader.state.pos,
                    recoverable: false,
                    inner: ParseError::Expecting { value: "```".to_owned() },
                });
            },
        }
    }
    let content_end = reader.state;
    let _ = reader.read();
    let _ = reader.read();
    let _ = reader.read();
    proof {
        if content@.len() == 0 {
            assert(buf.subrange(content_start.cursor as int, content_end.cursor as int)
                =~= Seq::<char>::empty());
        }
    }
    let mut elements: Vec<TemplateElement> = Vec::new();
    if content.as_str().unicode_len() > 0 {
        elements.push(TemplateElement::Str { value: content });
    }
    let value = Template {
        quotes: false,
        elements,
        source_info: SourceInfo { start: content_start.pos, end: content_end.pos },
    };
    proof {
        lemma_close_of(buf, content_start.cursor as int);
    }
    Ok(Bytes::RawString { newline, value })
}

/// The fixed text of a template that holds at most one literal segment.
pub open spec fn template_text(t: Template) -> Seq<char> {
    if t.elements@.len() == 0 {
        Seq::empty()
    } else {
        match t.elements@[0] {
            TemplateElement::Str { value } => value@,
            TemplateElement::Variable { name } => Seq::empty(),
        }
    }
}

} // verus!
