use vstd::prelude::*;

use crate::ast::Bytes;
use crate::error::{expecting_at, Error};
use crate::parser::base64;
use crate::parser::base64::{b64_decode, b64_region_end, b64_vals_of};
use crate::parser::combinators::{literal, spaces_end, starts_with_at, try_literal,
    zero_or_more_spaces};
use crate::parser::json;
use crate::parser::json::{json_parse_post, json_startable};
use crate::parser::primitives::{filename, filename_end, raw_string, raw_string_post, ticks};
use crate::parser::xml;
use crate::parser::xml::xml_post;
use crate::reader::{col_of, line_of, span_of, Reader, ReaderState};

verus! {

/// The full outcome of parsing a `file` construct at `pre` in `buf`:
/// which result comes back, where the reader stands afterwards, and the
/// exact position of every failure.
pub open spec fn file_bytes_post(
    buf: Seq<char>,
    pre: ReaderState,
    post: ReaderState,
    r: Result<Bytes, Error>,
) -> bool {
    let i = pre.cursor as int;
    if !starts_with_at(buf, i, "file"@) {
        &&& r is Err
        &&& post == pre
        &&& expecting_at(r->Err_0, pre.pos.line as int, pre.pos.column as int, true, "file"@)
    } else if !starts_with_at(buf, i + 4, ","@) {
        &&& r is Err
        &&& expecting_at(r->Err_0, line_of(buf, i + 4), col_of(buf, i + 4), false, ","@)
    } else {
        let s0e = spaces_end(buf, i + 5);
        let fe = filename_end(buf, s0e);
        if fe == s0e {
            &&& r is Err
            &&& expecting_at(r->Err_0, line_of(buf, s0e), col_of(buf, s0e), false, "filename"@)
        } else {
            let s1e = spaces_end(buf, fe);
            if !starts_with_at(buf, s1e, ";"@) {
                &&& r is Err
                &&& expecting_at(r->Err_0, line_of(buf, s1e), col_of(buf, s1e), false, ";"@)
            } else {
                &&& r matches Ok(b) && b matches Bytes::File { space0, filename, space1 }
                    && space0.value@ == buf.subrange(i + 5, s0e) && space0.source_info == span_of(
                    buf,
                    i + 5,
                    s0e,
                ) && filename.value@ == buf.subrange(s0e, fe) && filename.source_info == span_of(
                    buf,
                    s0e,
                    fe,
                ) && space1.value@ == buf.subrange(fe, s1e) && space1.source_info == span_of(
                    buf,
                    fe,
                    s1e,
                )
                &&& post.cursor == s1e + 1
            }
        }
    }
}

/// Parse a `file` construct: `file` `,` optional spaces, a file name,
/// optional spaces, `;`. Commits once `file` has matched.
pub fn file_bytes(reader: &mut Reader) -> (r: Result<Bytes, Error>)
    requires
        old(reader).wf(),
    ensures
        final(reader).wf(),
        final(reader).buffer@ == old(reader).buffer@,
        file_bytes_post(old(reader).buffer@, old(reader).state, final(reader).state, r),
        r is Err && r->Err_0.recoverable ==> final(reader).state == old(reader).state,
{
    let ghost buf = reader.buffer@;
    proof {
        reveal_strlit("file");
        reveal_strlit(",");
        reveal_strlit(";");
    }
    match try_literal("file", reader) {
        Ok(()) => {},
        Err(e) => {
            return Err(e);
        },
    }
    match literal(",", reader) {
        Ok(()) => {},
        Err(e) => {
            return Err(e);
        },
    }
    let space0 = zero_or_more_spaces(reader);
    let f = match filename(reader) {
        Ok(f) => f,
        Err(e) => {
            return Err(e);
        },
    };
    let space1 = zero_or_more_spaces(reader);
    match literal(";", reader) {
        Ok(()) => {},
        Err(e) => {
            return Err(e);
        },
    }
    Ok(Bytes::File { space0, filename: f, space1 })
}

/// The full outcome of parsing a `base64` construct at `pre` in `buf`.
/// On success the decoded bytes are exactly the decoding of the captured
/// encoded text, whitespace discounted.
pub open spec fn base64_bytes_post(
    buf: Seq<char>,
    pre: ReaderState,
    post: ReaderState,
    r: Result<Bytes, Error>,
) -> bool {
    let i = pre.cursor as int;
    if !starts_with_at(buf, i, "base64"@) {
        &&& r is Err
        &&& post == pre
        &&& expecting_at(r->Err_0, pre.pos.line as int, pre.pos.column as int, true, "base64"@)
    } else if !starts_with_at(buf, i + 6, ","@) {
        &&& r is Err
        &&& expecting_at(r->Err_0, line_of(buf, i + 6), col_of(buf, i + 6), false, ","@)
    } else {
        let s0e = spaces_end(buf, i + 7);
        let be = b64_region_end(buf, s0e);
        let s1e = spaces_end(buf, be);
        if !starts_with_at(buf, s1e, ";"@) {
            &&& r is Err
            &&& expecting_at(r->Err_0, line_of(buf, s1e), col_of(buf, s1e), false, ";"@)
        } else {
            &&& r matches Ok(b) && b matches Bytes::Base64 { space0, value, encoded, space1 }
                && space0.value@ == buf.subrange(i + 7, s0e) && space0.source_info == span_of(
                buf,
                i + 7,
                s0e,
            ) && encoded@ == buf.subrange(s0e, be) && value@ == b64_decode(b64_vals_of(encoded@))
                && space1.value@ == buf.subrange(be, s1e) && space1.source_info == span_of(
                buf,
                be,
                s1e,
            )
            &&& post.cursor == s1e + 1
        }
    }
}

/// Parse a `base64` construct: `base64` `,` optional spaces, the payload,
/// optional spaces, `;`. The payload is first decoded speculatively to find
/// how far it reaches; the reader is then rewound and exactly that text is
/// re-read verbatim, so the encoded form is preserved beside the decoded
/// bytes.
pub fn base64_bytes(reader: &mut Reader) -> (r: Result<Bytes, Error>)
    requires
        old(reader).wf(),
    ensures
        final(reader).wf(),
        final(reader).buffer@ == old(reader).buffer@,
        base64_bytes_post(old(reader).buffer@, old(reader).state, final(reader).state, r),
        r is Err && r->Err_0.recoverable ==> final(reader).state == old(reader).state,
{
    let ghost buf = reader.buffer@;
    proof {
        reveal_strlit("base64");
        reveal_strlit(",");
        reveal_strlit(";");
    }
    match try_literal("base64", reader) {
        Ok(()) => {},
        Err(e) => {
            return Err(e);
        },
    }
    match literal(",", reader) {
        Ok(()) => {},
        Err(e) => {
            return Err(e);
        },
    }
    let space0 = zero_or_more_spaces(reader);
    let save = reader.state;
    let value = base64::parse(reader);
    let count = reader.state.cursor - save.cursor;
    reader.state = save;
    let encoded = reader.read_n(count);
    let space1 = zero_or_more_spaces(reader);
    match literal(";", reader) {
        Ok(()) => {},
        Err(e) => {
            return Err(e);
        },
    }
    Ok(Bytes::Base64 { space0, value, encoded, space1 })
}

/// The XML parser's outcome, carried through the body-content union
/// unchanged: the value, the errors and the reader stand exactly as the
/// sub-parser left them.
pub open spec fn xml_bytes_post(
    buf: Seq<char>,
    pre: ReaderState,
    post: ReaderState,
    r: Result<Bytes, Error>,
) -> bool {
    match r {
        Ok(b) => b matches Bytes::Xml { value } && xml_post(buf, pre, post, Ok(value)),
        Err(e) => xml_post(buf, pre, post, Err(e)),
    }
}

/// Wrap an XML document into the body-content union.
pub fn xml_bytes(reader: &mut Reader) -> (r: Result<Bytes, Error>)
    requires
        old(reader).wf(),
    ensures
        final(reader).wf(),
        final(reader).buffer@ == old(reader).buffer@,
        xml_bytes_post(old(reader).buffer@, old(reader).state, final(reader).state, r),
{
    match xml::parse(reader) {
        Err(e) => Err(e),
        Ok(value) => Ok(Bytes::Xml { value }),
    }
}

/// The JSON parser's outcome, carried through the body-content union
/// unchanged: the value, the errors and the reader stand exactly as the
/// sub-parser left them.
pub open spec fn json_bytes_post(
    buf: Seq<char>,
    pre: ReaderState,
    post: ReaderState,
    r: Result<Bytes, Error>,
) -> bool {
    match r {
        Ok(b) => b matches Bytes::Json { value } && json_parse_post(buf, pre, post, Ok(value)),
        Err(e) => json_parse_post(buf, pre, post, Err(e)),
    }
}

/// Wrap a JSON value into the body-content union.
pub fn json_bytes(reader: &mut Reader) -> (r: Result<Bytes, Error>)
    requires
        old(reader).wf(),
    ensures
        final(reader).wf(),
        final(reader).buffer@ == old(reader).buffer@,
        json_bytes_post(old(reader).buffer@, old(reader).state, final(reader).state, r),
{
    match json::parse(reader) {
        Err(e) => Err(e),
        Ok(value) => Ok(Bytes::Json { value }),
    }
}

/// No body-content variant can begin at `i`: every alternative of `bytes`
/// fails recoverably there.
pub open spec fn no_bytes_variant(buf: Seq<char>, i: int) -> bool {
    &&& !starts_with_at(buf, i, ticks())
    &&& !json_startable(buf, i)
    &&& (i >= buf.len() || buf[i] != '<')
    &&& !starts_with_at(buf, i, "base64"@)
    &&& !starts_with_at(buf, i, "file"@)
}

/// Parse a body-content literal by trying each variant in declared order:
/// raw string, JSON, XML, base64, file. A recoverable failure moves on to
/// the next variant with the reader restored; a non-recoverable one is
/// returned at once. When every variant fails recoverably, the error of the
/// last one — the `file` probe — comes back, at the exact position where
/// parsing began, and the reader stands where it started.
pub fn bytes(reader: &mut Reader) -> (r: Result<Bytes, Error>)
    requires
        old(reader).wf(),
    ensures
        final(reader).wf(),
        final(reader).buffer@ == old(reader).buffer@,
        (r is Err && r->Err_0.recoverable) <==> no_bytes_variant(
            old(reader).buffer@,
            old(reader).state.cursor as int,
        ),
        r is Err && r->Err_0.recoverable ==> final(reader).state == old(reader).state
            && expecting_at(
            r->Err_0,
            old(reader).state.pos.line as int,
            old(reader).state.pos.column as int,
            true,
            "file"@,
        ),
        ({
            let buf = old(reader).buffer@;
            let i = old(reader).state.cursor as int;
            &&& (starts_with_at(buf, i, ticks()) ==> raw_string_post(
                buf,
                old(reader).state,
                final(reader).state,
                r,
            ))
            &&& (!starts_with_at(buf, i, ticks()) && json_startable(buf, i) ==> json_bytes_post(
                buf,
                old(reader).state,
                final(reader).state,
                r,
            ))
            &&& (!starts_with_at(buf, i, ticks()) && !json_startable(buf, i) && i < buf.len()
                && buf[i] == '<' ==> xml_bytes_post(
                buf,
                old(reader).state,
                final(reader).state,
                r,
            ))
            &&& (!starts_with_at(buf, i, ticks()) && !json_startable(buf, i) && (i >= buf.len()
                || buf[i] != '<') && starts_with_at(buf, i, "base64"@) ==> base64_bytes_post(
                buf,
                old(reader).state,
                final(reader).state,
                r,
            ))
            &&& (!starts_with_at(buf, i, ticks()) && !json_startable(buf, i) && (i >= buf.len()
                || buf[i] != '<') && !starts_with_at(buf, i, "base64"@) && starts_with_at(
                buf,
                i,
                "file"@,
            ) ==> file_bytes_post(buf, old(reader).state, final(reader).state, r))
        }),
{
    match raw_string(reader) {
        Ok(v) => {
            return Ok(v);
        },
        Err(e) => {
            if !e.recoverable {
                return Err(e);
            }
        },
    }
    match json_bytes(reader) {
        Ok(v) => {
            return Ok(v);
        },
        Err(e) => {
            if !e.recoverable {
                return Err(e);
            }
        },
    }
    match xml_bytes(reader) {
        Ok(v) => {
            return Ok(v);
        },
        Err(e) => {
            if !e.recoverable {
                return Err(e);
            }
        },
    }
    match base64_bytes(reader) {
        Ok(v) => {
            return Ok(v);
        },
        Err(e) => {
            if !e.recoverable {
                return Err(e);
            }
        },
    }
    file_bytes(reader)
}

} // verus!
