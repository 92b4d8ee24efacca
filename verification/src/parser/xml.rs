use vstd::prelude::*;

use crate::error::{expecting_at, Error, ParseError};
use crate::reader::{col_of, line_of, Reader, ReaderState};

verus! {

/// The offset of the first `>` at or after `i`, or the end of the text.
pub open spec fn gt_end(buf: Seq<char>, i: int) -> int
    decreases buf.len() - i,
{
    if 0 <= i < buf.len() && buf[i] != '>' {
        gt_end(buf, i + 1)
    } else {
        i
    }
}

/// The offset of the first `<` at or after `i`, or the end of the text.
pub open spec fn lt_end(buf: Seq<char>, i: int) -> int
    decreases buf.len() - i,
{
    if 0 <= i < buf.len() && buf[i] != '<' {
        lt_end(buf, i + 1)
    } else {
        i
    }
}

pub proof fn lemma_gt_end(buf: Seq<char>, i: int)
    requires
        0 <= i <= buf.len(),
    ensures
        i <= gt_end(buf, i) <= buf.len(),
    decreases buf.len() - i,
{
    if i < buf.len() && buf[i] != '>' {
        lemma_gt_end(buf, i + 1);
    }
}

pub proof fn lemma_lt_end(buf: Seq<char>, i: int)
    requires
        0 <= i <= buf.len(),
    ensures
        i <= lt_end(buf, i) <= buf.len(),
    decreases buf.len() - i,
{
    if i < buf.len() && buf[i] != '<' {
        lemma_lt_end(buf, i + 1);
    }
}

/// Where the document scan ends when it stands at a `<` at offset `i` with
/// `depth` elements open: the offset just past the tag that closes the
/// document, or nothing when the text runs out first. A closing tag ends
/// one element; a self-closing tag opens and closes one in place; a
/// declaration or comment tag leaves the depth alone; any other tag opens
/// an element.
pub open spec fn xml_scan(buf: Seq<char>, i: int, depth: int) -> Option<int>
    decreases buf.len() - i,
    when 0 <= i <= buf.len()
    via xml_scan_decreases
{
    let g = gt_end(buf, i + 1);
    if g >= buf.len() {
        None
    } else {
        let closing = i + 1 < buf.len() && buf[i + 1] == '/';
        let neutral = i + 1 < buf.len() && (buf[i + 1] == '?' || buf[i + 1] == '!');
        let selfclose = !closing && !neutral && g >= i + 2 && buf[g - 1] == '/';
        if closing && depth <= 1 {
            Some(g + 1)
        } else if selfclose && depth == 0 {
            Some(g + 1)
        } else {
            let d2 = if closing {
                depth - 1
            } else if neutral || selfclose {
                depth
            } else {
                depth + 1
            };
            let t = lt_end(buf, g + 1);
            if t >= buf.len() {
                None
            } else {
                xml_scan(buf, t, d2)
            }
        }
    }
}

#[via_fn]
proof fn xml_scan_decreases(buf: Seq<char>, i: int, depth: int) {
    if 0 <= i && i + 1 <= buf.len() {
        lemma_gt_end(buf, i + 1);
        if gt_end(buf, i + 1) < buf.len() {
            lemma_lt_end(buf, gt_end(buf, i + 1) + 1);
        }
    }
}

/// The full outcome of the XML parser at `pre` in `buf`: recoverable
/// exactly when no `<` stands at the cursor; otherwise the scan decides —
/// on success the value is exactly the consumed span and the cursor stands
/// just past it, and when the text runs out inside the document the error
/// is non-recoverable at the exact end of the text.
pub open spec fn xml_post(
    buf: Seq<char>,
    pre: ReaderState,
    post: ReaderState,
    r: Result<String, Error>,
) -> bool {
    let i = pre.cursor as int;
    if i >= buf.len() || buf[i] != '<' {
        &&& r is Err
        &&& post == pre
        &&& expecting_at(r->Err_0, pre.pos.line as int, pre.pos.column as int, true, "<"@)
    } else {
        match xml_scan(buf, i, 0) {
            Some(e) => {
                &&& r matches Ok(s) && s@ == buf.subrange(i, e)
                &&& post.cursor == e
            },
            None => {
                &&& r is Err
                &&& !r->Err_0.recoverable
                &&& r->Err_0.pos.line == line_of(buf, buf.len() as int)
                &&& r->Err_0.pos.column == col_of(buf, buf.len() as int)
                &&& r->Err_0.inner matches ParseError::Expecting { value } && (value@ == ">"@
                    || value@ == "<"@)
            },
        }
    }
}

/// Parse one XML document and return its raw markup text. The scanner
/// tracks element depth as `xml_scan` describes, and the document is
/// complete when the depth returns to zero.
pub fn parse(reader: &mut Reader) -> (r: Result<String, Error>)
    requires
        old(reader).wf(),
    ensures
        final(reader).wf(),
        final(reader).buffer@ == old(reader).buffer@,
        xml_post(old(reader).buffer@, old(reader).state, final(reader).state, r),
{
    let ghost buf = reader.buffer@;
    let start = reader.state;
    let is_open: bool = match reader.peek() {
        Some(c) => c == '<',
        None => false,
    };
    if !is_open {
        return Err(Error {
            pos: start.pos,
            recoverable: true,
            inner: ParseError::Expecting { value: "<".to_owned() },
        });
    }
    let mut value = String::new();
    let mut depth: usize = 0;
    loop
        invariant
            reader.wf(),
            reader.buffer@ == buf,
            buf == old(reader).buffer@,
            start == old(reader).state,
            start.cursor < buf.len(),
            buf[start.cursor as int] == '<',
            start.cursor <= reader.state.cursor <= buf.len(),
            reader.state.cursor < buf.len(),
            buf[reader.state.cursor as int] == '<',
            value@ == buf.subrange(start.cursor as int, reader.state.cursor as int),
            depth <= reader.state.cursor,
            xml_scan(buf, start.cursor as int, 0) == xml_scan(
                buf,
                reader.state.cursor as int,
                depth as int,
            ),
        decreases buf.len() - reader.state.cursor,
    {
        let ghost top = reader.state.cursor as int;
        let ghost dtop = depth as int;
        // Consume one tag, from `<` to its `>`.
        let c0 = reader.read().unwrap();
        crate::text::push_char(&mut value, c0);
        proof {
            assert(value@ =~= buf.subrange(start.cursor as int, reader.state.cursor as int));
        }
        let kind: u8 = match reader.peek() {
            Some('/') => 1,
            Some('?') => 2,
            Some('!') => 2,
            _ => 0,
        };
        let mut last: char = '<';
        let ghost body_start = reader.state.cursor as int;
        loop
            invariant_except_break
                gt_end(buf, reader.state.cursor as int) == gt_end(buf, body_start),
                reader.state.cursor as int == body_start ==> last == '<',
                reader.state.cursor as int > body_start ==> last == buf[
                    reader.state.cursor - 1
                ] && buf[reader.state.cursor - 1] != '>',
            invariant
                reader.wf(),
                reader.buffer@ == buf,
                buf == old(reader).buffer@,
                start == old(reader).state,
                start.cursor < buf.len(),
                buf[start.cursor as int] == '<',
                start.cursor < reader.state.cursor <= buf.len(),
                body_start <= reader.state.cursor,
                0 <= top < buf.len(),
                body_start == top + 1,
                dtop == depth as int,
                xml_scan(buf, start.cursor as int, 0) == xml_scan(buf, top, dtop),
                value@ == buf.subrange(start.cursor as int, reader.state.cursor as int),
                depth <= reader.state.cursor,
            ensures
                reader.wf(),
                reader.buffer@ == buf,
                start.cursor < reader.state.cursor <= buf.len(),
                value@ == buf.subrange(start.cursor as int, reader.state.cursor as int),
                gt_end(buf, body_start) < buf.len(),
                reader.state.cursor as int == gt_end(buf, body_start) + 1,
                ({
                    let g = gt_end(buf, body_start);
                    if g >= body_start + 1 {
                        last == buf[g - 1] && buf[g - 1] != '>'
                    } else {
                        last == '<'
                    }
                }),
            decreases buf.len() - reader.state.cursor,
        {
            match reader.read() {
                None => {
                    proof {
                        assert(gt_end(buf, body_start) == buf.len() as int);
                        assert(xml_scan(buf, top, dtop) is None);
                    }
                    return Err(Error {
                        pos: reader.state.pos,
                        recoverable: false,
                        inner: ParseError::Expecting { value: ">".to_owned() },
                    });
                },
                Some(c) => {
                    crate::text::push_char(&mut value, c);
                    proof {
                        assert(value@ =~= buf.subrange(
                            start.cursor as int,
                            reader.state.cursor as int,
                        ));
                    }
                    if c == '>' {
                        break;
                    }
                    last = c;
                },
            }
        }
        let ghost g = gt_end(buf, body_start);
        proof {
            assert(g < buf.len() && reader.state.cursor as int == g + 1);
            assert((kind == 1) == (top + 1 < buf.len() && buf[top + 1] == '/'));
            assert((kind == 2) == (top + 1 < buf.len() && (buf[top + 1] == '?' || buf[top + 1]
                == '!')));
        }
        if kind == 1 {
            // A closing tag: one element ends here.
            if depth <= 1 {
                proof {
                    assert(xml_scan(buf, top, dtop) == Some(g + 1));
                }
                return Ok(value);
            }
            depth = depth - 1;
        } else if kind == 0 {
            if last == '/' {
                // Self-closing: the element opened and closed in one tag.
                if depth == 0 {
                    proof {
                        assert(xml_scan(buf, top, dtop) == Some(g + 1));
                    }
                    return Ok(value);
                }
            } else {
                depth = depth + 1;
            }
        }
        proof {
            lemma_lt_end(buf, g + 1);
            assert(xml_scan(buf, top, dtop) == (if lt_end(buf, g + 1) >= buf.len() {
                Option::<int>::None
            } else {
                xml_scan(buf, lt_end(buf, g + 1), depth as int)
            }));
        }
        // Consume character data up to the next tag.
        let ghost text_pre = reader.state.cursor;
        loop
            invariant
                reader.wf(),
                reader.buffer@ == buf,
                buf == old(reader).buffer@,
                start == old(reader).state,
                start.cursor < buf.len(),
                buf[start.cursor as int] == '<',
                start.cursor < reader.state.cursor <= buf.len(),
                text_pre <= reader.state.cursor,
                xml_scan(buf, start.cursor as int, 0) == (if lt_end(buf, text_pre as int)
                    >= buf.len() {
                    Option::<int>::None
                } else {
                    xml_scan(buf, lt_end(buf, text_pre as int), depth as int)
                }),
                value@ == buf.subrange(start.cursor as int, reader.state.cursor as int),
                depth <= reader.state.cursor,
                lt_end(buf, reader.state.cursor as int) == lt_end(buf, text_pre as int),
            ensures
                reader.wf(),
                reader.buffer@ == buf,
                start.cursor < reader.state.cursor <= buf.len(),
                text_pre <= reader.state.cursor,
                reader.state.cursor < buf.len(),
                reader.state.cursor as int == lt_end(buf, text_pre as int),
                buf[reader.state.cursor as int] == '<',
                value@ == buf.subrange(start.cursor as int, reader.state.cursor as int),
                depth <= reader.state.cursor,
            decreases buf.len() - reader.state.cursor,
        {
            let next = reader.peek();
            if next.is_none() {
                proof {
                    assert(lt_end(buf, text_pre as int) == buf.len() as int);
                    assert(xml_scan(buf, start.cursor as int, 0) is None);
                }
                return Err(Error {
                    pos: reader.state.pos,
                    recoverable: false,
                    inner: ParseError::Expecting { value: "<".to_owned() },
                });
            }
            if next.unwrap() == '<' {
                break;
            }
            let c = reader.read().unwrap();
            crate::text::push_char(&mut value, c);
            proof {
                assert(value@ =~= buf.subrange(start.cursor as int, reader.state.cursor as int));
            }
        }
    }
}

} // verus!
