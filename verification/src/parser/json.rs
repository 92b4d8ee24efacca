use vstd::prelude::*;

use crate::ast::{SourceInfo, Template, TemplateElement};
use crate::error::{expecting_at, Error, ParseError};
use crate::parser::combinators::{spaces_end, starts_with_at, try_literal, zero_or_more_spaces};
use crate::reader::{col_of, line_of, span_of, Reader, ReaderState};

verus! {

/// One element of a JSON list, with the whitespace around its value.
#[derive(Debug)]
pub struct ListElement {
    pub space0: String,
    pub value: Value,
    pub space1: String,
}

/// One member of a JSON object, with the whitespace around its parts.
#[derive(Debug)]
pub struct ObjectElement {
    pub space0: String,
    pub name: String,
    pub space1: String,
    pub space2: String,
    pub value: Value,
    pub space3: String,
}

/// A JSON value as written: numbers keep their exact source text, and
/// whitespace inside composites is captured verbatim.
#[derive(Debug)]
pub enum Value {
    Null,
    Boolean(bool),
    Number(String),
    String(Template),
    List { space0: String, elements: Vec<ListElement> },
    Object { space0: String, elements: Vec<ObjectElement> },
}

pub open spec fn is_digit(c: char) -> bool {
    '0' <= c && c <= '9'
}

/// The first offset at or after `i` that does not hold a digit.
pub open spec fn digits_end(buf: Seq<char>, i: int) -> int
    decreases buf.len() - i,
{
    if 0 <= i < buf.len() && is_digit(buf[i]) {
        digits_end(buf, i + 1)
    } else {
        i
    }
}

pub proof fn lemma_digits_end(buf: Seq<char>, i: int)
    requires
        0 <= i <= buf.len(),
    ensures
        i <= digits_end(buf, i) <= buf.len(),
    decreases buf.len() - i,
{
    if i < buf.len() && is_digit(buf[i]) {
        lemma_digits_end(buf, i + 1);
    }
}

/// Where the number starting at `i` ends: an optional sign, digits, and an
/// optional fraction. Equal to `i` when no number stands there.
pub open spec fn num_end(buf: Seq<char>, i: int) -> int {
    let s = if 0 <= i < buf.len() && buf[i] == '-' {
        i + 1
    } else {
        i
    };
    if 0 <= s < buf.len() && is_digit(buf[s]) {
        let e = digits_end(buf, s);
        if e + 1 < buf.len() && buf[e] == '.' && is_digit(buf[e + 1]) {
            digits_end(buf, e + 1)
        } else {
            e
        }
    } else {
        i
    }
}

/// Where the body of a quoted string beginning at `i` (just after the
/// opening quote) ends: the offset of the closing quote, or a value past
/// the end of the text when the text runs out first. A backslash escapes
/// the character after it.
pub open spec fn str_body_end(buf: Seq<char>, i: int) -> int
    decreases buf.len() - i,
{
    if !(0 <= i) {
        i
    } else if i >= buf.len() {
        i
    } else if buf[i] == '"' {
        i
    } else if buf[i] == '\\' && i + 1 < buf.len() {
        str_body_end(buf, i + 2)
    } else if buf[i] == '\\' {
        i + 2
    } else {
        str_body_end(buf, i + 1)
    }
}

pub proof fn lemma_str_body_end(buf: Seq<char>, i: int)
    requires
        0 <= i <= buf.len(),
    ensures
        i <= str_body_end(buf, i) <= buf.len() + 1,
    decreases buf.len() - i,
{
    if i < buf.len() && buf[i] != '"' {
        if buf[i] == '\\' && i + 1 < buf.len() {
            lemma_str_body_end(buf, i + 2);
        } else if buf[i] != '\\' {
            lemma_str_body_end(buf, i + 1);
        }
    }
}

/// A character other than `n`, `t` or `f` can begin none of the keyword
/// forms.
pub proof fn lemma_not_keyword(buf: Seq<char>, i: int)
    requires
        0 <= i < buf.len(),
        buf[i] != 'n',
        buf[i] != 't',
        buf[i] != 'f',
    ensures
        !starts_with_at(buf, i, "null"@),
        !starts_with_at(buf, i, "true"@),
        !starts_with_at(buf, i, "false"@),
{
    reveal_strlit("null");
    reveal_strlit("true");
    reveal_strlit("false");
    if starts_with_at(buf, i, "null"@) {
        assert(buf.subrange(i, i + 4)[0] == 'n');
    }
    if starts_with_at(buf, i, "true"@) {
        assert(buf.subrange(i, i + 4)[0] == 't');
    }
    if starts_with_at(buf, i, "false"@) {
        assert(buf.subrange(i, i + 5)[0] == 'f');
    }
}

/// A JSON value can begin at offset `i`: one of the keyword, string,
/// number, list or object forms is present.
pub open spec fn json_startable(buf: Seq<char>, i: int) -> bool {
    ||| starts_with_at(buf, i, "null"@)
    ||| starts_with_at(buf, i, "true"@)
    ||| starts_with_at(buf, i, "false"@)
    ||| (0 <= i < buf.len() && (buf[i] == '"' || buf[i] == '[' || buf[i] == '{'))
    ||| num_end(buf, i) > i
}

/// Where the JSON value beginning at `i` ends, or nothing when its grammar
/// breaks off: the keyword, string and number forms end where their text
/// does, and a composite ends where `list_rest` or `obj_rest` says its
/// closing bracket stands. Mirrors the order in which the parser probes
/// the forms.
pub open spec fn jv_end(buf: Seq<char>, i: int) -> Option<int>
    decreases buf.len() - i, 0int,
    when 0 <= i <= buf.len()
{
    if starts_with_at(buf, i, "null"@) || starts_with_at(buf, i, "true"@) {
        Some(i + 4)
    } else if starts_with_at(buf, i, "false"@) {
        Some(i + 5)
    } else if i < buf.len() && buf[i] == '"' {
        let e = str_body_end(buf, i + 1);
        if e < buf.len() {
            Some(e + 1)
        } else {
            None
        }
    } else if num_end(buf, i) > i {
        Some(num_end(buf, i))
    } else if i < buf.len() && buf[i] == '[' {
        let se = spaces_end(buf, i + 1);
        if se < buf.len() && buf[se] == ']' {
            Some(se + 1)
        } else if i + 1 <= se <= buf.len() {
            list_rest(buf, se)
        } else {
            None
        }
    } else if i < buf.len() && buf[i] == '{' {
        let se = spaces_end(buf, i + 1);
        if se < buf.len() && buf[se] == '}' {
            Some(se + 1)
        } else if i + 1 <= se <= buf.len() {
            obj_rest(buf, se)
        } else {
            None
        }
    } else {
        None
    }
}

/// Where the remainder of a list ends, standing before the spaces that
/// lead its next element: an element, spaces, then a comma and the next
/// element or the closing bracket.
pub open spec fn list_rest(buf: Seq<char>, k: int) -> Option<int>
    decreases buf.len() - k, 1int,
    when 0 <= k <= buf.len()
{
    let p = spaces_end(buf, k);
    if !(k <= p <= buf.len()) {
        None
    } else {
        match jv_end(buf, p) {
            None => None,
            Some(q) => if !(p < q <= buf.len()) {
                None
            } else {
                let s1 = spaces_end(buf, q);
                if !(q <= s1 <= buf.len()) {
                    None
                } else if s1 < buf.len() && buf[s1] == ',' {
                    list_rest(buf, s1 + 1)
                } else if s1 < buf.len() && buf[s1] == ']' {
                    Some(s1 + 1)
                } else {
                    None
                }
            },
        }
    }
}

/// Where the remainder of an object ends, standing at its next member: a
/// quoted name, a colon, a value, then a comma and the next member or the
/// closing brace.
pub open spec fn obj_rest(buf: Seq<char>, k: int) -> Option<int>
    decreases buf.len() - k, 1int,
    when 0 <= k <= buf.len()
{
    if k >= buf.len() || buf[k] != '"' {
        None
    } else {
        let e = str_body_end(buf, k + 1);
        if e >= buf.len() || e < k + 1 {
            None
        } else {
            let s1 = spaces_end(buf, e + 1);
            if !(e + 1 <= s1 <= buf.len()) {
                None
            } else if s1 >= buf.len() || buf[s1] != ':' {
                None
            } else {
                let s2 = spaces_end(buf, s1 + 1);
                if !(s1 + 1 <= s2 <= buf.len()) {
                    None
                } else {
                    match jv_end(buf, s2) {
                        None => None,
                        Some(q) => if !(s2 < q <= buf.len()) {
                            None
                        } else {
                            let s3 = spaces_end(buf, q);
                            if !(q <= s3 <= buf.len()) {
                                None
                            } else if s3 < buf.len() && buf[s3] == ',' {
                                let k2 = spaces_end(buf, s3 + 1);
                                if s3 + 1 <= k2 <= buf.len() {
                                    obj_rest(buf, k2)
                                } else {
                                    None
                                }
                            } else if s3 < buf.len() && buf[s3] == '}' {
                                Some(s3 + 1)
                            } else {
                                None
                            }
                        },
                    }
                }
            }
        }
    }
}

/// The full outcome of the quoted-string parser at `pre` in `buf`:
/// recoverable exactly when no quote opens here; with a quote, success is
/// owed whenever the body closes, with the exact template and cursor, and
/// an unclosed body is a hard error at the exact end of the text.
pub open spec fn string_post(
    buf: Seq<char>,
    pre: ReaderState,
    post: ReaderState,
    r: Result<Value, Error>,
) -> bool {
    let i = pre.cursor as int;
    if i >= buf.len() || buf[i] != '"' {
        &&& r is Err
        &&& r->Err_0.recoverable
        &&& post == pre
        &&& expecting_at(r->Err_0, pre.pos.line as int, pre.pos.column as int, true, "\""@)
    } else {
        let e = str_body_end(buf, i + 1);
        if e < buf.len() {
            &&& r matches Ok(v) && v matches Value::String(t) && t.quotes == true
                && t.elements@.len() <= 1 && crate::parser::primitives::template_text(t)
                == buf.subrange(i + 1, e) && t.source_info == span_of(buf, i + 1, e)
            &&& post.cursor == e + 1
        } else {
            &&& r is Err
            &&& !r->Err_0.recoverable
            &&& expecting_at(
                r->Err_0,
                line_of(buf, buf.len() as int),
                col_of(buf, buf.len() as int),
                false,
                "\""@,
            )
        }
    }
}

/// The full outcome of the JSON value parser at `pre` in `buf`. A
/// recoverable failure happens exactly when no value can begin here, with
/// the reader restored and the last alternative's probe as the error.
/// Success is owed for every keyword, number and closed string, and for
/// the empty list and object; a composite whose grammar breaks off past
/// its opening bracket is a hard error, pinned exactly for an object whose
/// first member does not open with a quote.
pub open spec fn json_parse_post(
    buf: Seq<char>,
    pre: ReaderState,
    post: ReaderState,
    r: Result<Value, Error>,
) -> bool {
    let i = pre.cursor as int;
    &&& (r is Ok ==> pre.cursor < post.cursor <= buf.len())
    &&& ((r is Err && r->Err_0.recoverable) <==> !json_startable(buf, i))
    &&& (r is Err && r->Err_0.recoverable ==> post == pre && expecting_at(
        r->Err_0,
        pre.pos.line as int,
        pre.pos.column as int,
        true,
        "{"@,
    ))
    &&& (starts_with_at(buf, i, "null"@) ==> (r matches Ok(v) && v is Null && post.cursor == i
        + 4))
    &&& (starts_with_at(buf, i, "true"@) ==> (r matches Ok(v) && (v matches Value::Boolean(b)
        && b == true) && post.cursor == i + 4))
    &&& (starts_with_at(buf, i, "false"@) ==> (r matches Ok(v) && (v matches Value::Boolean(b)
        && b == false) && post.cursor == i + 5))
    &&& (r matches Ok(Value::Null) ==> starts_with_at(buf, i, "null"@))
    &&& (r matches Ok(Value::Boolean(b)) ==> if b {
        starts_with_at(buf, i, "true"@)
    } else {
        starts_with_at(buf, i, "false"@)
    })
    &&& (num_end(buf, i) > i ==> (r matches Ok(v) && (v matches Value::Number(s) && s@
        == buf.subrange(i, num_end(buf, i))) && post.cursor == num_end(buf, i)))
    &&& (r matches Ok(Value::Number(s)) ==> num_end(buf, i) > i)
    &&& (json_startable(buf, i) && 0 <= i <= buf.len() ==> ((r is Ok <==> jv_end(
        buf,
        i,
    ) is Some) && (r is Ok ==> post.cursor == jv_end(buf, i)->Some_0)))
    &&& (i < buf.len() && buf[i] == '"' ==> string_post(buf, pre, post, r))
    &&& (r matches Ok(Value::String(t)) ==> i < buf.len() && buf[i] == '"')
    &&& (r matches Ok(Value::List { .. }) ==> i < buf.len() && buf[i] == '[')
    &&& (r matches Ok(Value::Object { .. }) ==> i < buf.len() && buf[i] == '{')
    &&& (i < buf.len() && buf[i] == '[' ==> r matches Ok(Value::List { .. }) || (r is Err
        && !r->Err_0.recoverable))
    &&& (i < buf.len() && buf[i] == '[' && ({
        let se = spaces_end(buf, i + 1);
        se < buf.len() && buf[se] == ']'
    }) ==> (r matches Ok(v) && (v matches Value::List { space0, elements } && space0@
        == buf.subrange(i + 1, spaces_end(buf, i + 1)) && elements@.len() == 0) && post.cursor
        == spaces_end(buf, i + 1) + 1))
    &&& (i < buf.len() && buf[i] == '{' ==> r matches Ok(Value::Object { .. }) || (r is Err
        && !r->Err_0.recoverable))
    &&& (i < buf.len() && buf[i] == '{' && ({
        let se = spaces_end(buf, i + 1);
        se < buf.len() && buf[se] == '}'
    }) ==> (r matches Ok(v) && (v matches Value::Object { space0, elements } && space0@
        == buf.subrange(i + 1, spaces_end(buf, i + 1)) && elements@.len() == 0) && post.cursor
        == spaces_end(buf, i + 1) + 1))
    &&& (i < buf.len() && buf[i] == '{' && ({
        let se = spaces_end(buf, i + 1);
        se >= buf.len() || (buf[se] != '}' && buf[se] != '"')
    }) ==> r is Err && !r->Err_0.recoverable && expecting_at(
        r->Err_0,
        line_of(buf, spaces_end(buf, i + 1)),
        col_of(buf, spaces_end(buf, i + 1)),
        false,
        "\""@,
    ))
}

/// Parse one JSON value. Fails recoverably exactly when no value can begin
/// here, with the reader restored; after the first character of a composite
/// form, any failure is a hard error.
pub fn parse(reader: &mut Reader) -> (r: Result<Value, Error>)
    requires
        old(reader).wf(),
    ensures
        final(reader).wf(),
        final(reader).buffer@ == old(reader).buffer@,
        json_parse_post(old(reader).buffer@, old(reader).state, final(reader).state, r),
    decreases old(reader).buffer@.len() - old(reader).state.cursor, 1int,
{
    let ghost buf = reader.buffer@;
    let ghost i = reader.state.cursor as int;
    proof {
        reveal_strlit("null");
        reveal_strlit("true");
        reveal_strlit("false");
        assert(starts_with_at(buf, i, "null"@) ==> buf[i] == 'n') by {
            if starts_with_at(buf, i, "null"@) {
                assert(buf.subrange(i, i + 4)[0] == 'n');
            }
        }
        assert(starts_with_at(buf, i, "true"@) ==> buf[i] == 't') by {
            if starts_with_at(buf, i, "true"@) {
                assert(buf.subrange(i, i + 4)[0] == 't');
            }
        }
        assert(starts_with_at(buf, i, "false"@) ==> buf[i] == 'f') by {
            if starts_with_at(buf, i, "false"@) {
                assert(buf.subrange(i, i + 5)[0] == 'f');
            }
        }
    }
    match try_literal("null", reader) {
        Ok(()) => {
            proof {
                assert(buf.subrange(i, i + 4)[0] == 'n');
            }
            return Ok(Value::Null);
        },
        Err(_) => {},
    }
    match try_literal("true", reader) {
        Ok(()) => {
            proof {
                assert(buf.subrange(i, i + 4)[0] == 't');
            }
            return Ok(Value::Boolean(true));
        },
        Err(_) => {},
    }
    match try_literal("false", reader) {
        Ok(()) => {
            proof {
                assert(buf.subrange(i, i + 5)[0] == 'f');
            }
            return Ok(Value::Boolean(false));
        },
        Err(_) => {},
    }
    match string_value(reader) {
        Ok(v) => {
            return Ok(v);
        },
        Err(e) => {
            if !e.recoverable {
                return Err(e);
            }
        },
    }
    match number_value(reader) {
        Ok(v) => {
            return Ok(v);
        },
        Err(e) => {
            if !e.recoverable {
                return Err(e);
            }
        },
    }
    match list_value(reader) {
        Ok(v) => {
            return Ok(v);
        },
        Err(e) => {
            if !e.recoverable {
                return Err(e);
            }
        },
    }
    object_value(reader)
}

/// Parse a quoted JSON string into a template holding its raw body.
fn string_value(reader: &mut Reader) -> (r: Result<Value, Error>)
    requires
        old(reader).wf(),
    ensures
        final(reader).wf(),
        final(reader).buffer@ == old(reader).buffer@,
        r is Ok ==> old(reader).state.cursor < final(reader).state.cursor <= old(
            reader,
        ).buffer@.len(),
        string_post(old(reader).buffer@, old(reader).state, final(reader).state, r),
{
    let ghost buf = reader.buffer@;
    let start = reader.state;
    let is_quote: bool = match reader.peek() {
        Some(c) => c == '"',
        None => false,
    };
    if !is_quote {
        return Err(Error {
            pos: start.pos,
            recoverable: true,
            inner: ParseError::Expecting { value: "\"".to_owned() },
        });
    }
    let _ = reader.read();
    let body_start = reader.state;
    let mut content = String::new();
    loop
        invariant
            reader.wf(),
            reader.buffer@ == buf,
            buf == old(reader).buffer@,
            Reader::wf_at(buf, body_start),
            old(reader).state.cursor < buf.len(),
            buf[old(reader).state.cursor as int] == '"',
            body_start.cursor == old(reader).state.cursor + 1,
            body_start.cursor <= reader.state.cursor <= buf.len(),
            content@ == buf.subrange(body_start.cursor as int, reader.state.cursor as int),
            str_body_end(buf, reader.state.cursor as int) == str_body_end(
                buf,
                body_start.cursor as int,
            ),
        ensures
            reader.wf(),
            reader.buffer@ == buf,
            reader.state.cursor == str_body_end(buf, body_start.cursor as int),
            reader.state.cursor < buf.len() && buf[reader.state.cursor as int] == '"',
            content@ == buf.subrange(body_start.cursor as int, reader.state.cursor as int),
        decreases buf.len() - reader.state.cursor,
    {
        let at_close: bool = match reader.peek() {
            Some(c) => c == '"',
            None => false,
        };
        if at_close {
            break;
        }
        match reader.read() {
            None => {
                return Err(Error {
                    pos: reader.state.pos,
                    recoverable: false,
                    inner: ParseError::Expecting { value: "\"".to_owned() },
                });
            },
            Some(c) => {
                crate::text::push_char(&mut content, c);
                if c == '\\' {
                    match reader.read() {
                        None => {
                            return Err(Error {
                                pos: reader.state.pos,
                                recoverable: false,
                                inner: ParseError::Expecting { value: "\"".to_owned() },
                            });
                        },
                        Some(c2) => {
                            crate::text::push_char(&mut content, c2);
                        },
                    }
                }
                proof {
                    assert(content@ =~= buf.subrange(
                        body_start.cursor as int,
                        reader.state.cursor as int,
                    ));
                }
            },
        }
    }
    let body_end = reader.state;
    let _ = reader.read();
    let mut elements: Vec<TemplateElement> = Vec::new();
    if content.as_str().unicode_len() > 0 {
        elements.push(TemplateElement::Str { value: content });
    } else {
        proof {
            assert(buf.subrange(body_start.cursor as int, body_end.cursor as int)
                =~= Seq::<char>::empty());
        }
    }
    Ok(Value::String(Template {
        quotes: true,
        elements,
        source_info: SourceInfo { start: body_start.pos, end: body_end.pos },
    }))
}

/// Parse a number, keeping its exact source text.
fn number_value(reader: &mut Reader) -> (r: Result<Value, Error>)
    requires
        old(reader).wf(),
    ensures
        final(reader).wf(),
        final(reader).buffer@ == old(reader).buffer@,
        ({
            let buf = old(reader).buffer@;
            let i = old(reader).state.cursor as int;
            if num_end(buf, i) == i {
                &&& r is Err
                &&& r->Err_0.recoverable
                &&& final(reader).state == old(reader).state
            } else {
                &&& r matches Ok(Value::Number(s)) && s@ == buf.subrange(i, num_end(buf, i))
                &&& final(reader).state.cursor == num_end(buf, i)
                &&& num_end(buf, i) > i
            }
        }),
{
    let ghost buf = reader.buffer@;
    let start = reader.state;
    proof {
        lemma_digits_end(buf, start.cursor as int);
        if start.cursor < buf.len() {
            lemma_digits_end(buf, start.cursor + 1);
        }
    }
    let mut s = String::new();
    let has_minus: bool = match reader.peek() {
        Some(c) => c == '-',
        None => false,
    };
    if has_minus {
        let c = reader.read().unwrap();
        crate::text::push_char(&mut s, c);
    }
    let first_digit: bool = match reader.peek() {
        Some(c) => '0' <= c && c <= '9',
        None => false,
    };
    if !first_digit {
        reader.state = start;
        return Err(Error {
            pos: start.pos,
            recoverable: true,
            inner: ParseError::Expecting { value: "number".to_owned() },
        });
    }
    read_digits(reader, &mut s);
    proof {
        assert(s@ =~= buf.subrange(start.cursor as int, reader.state.cursor as int));
    }
    // An optional fraction: a dot counts only when a digit follows it.
    let c = reader.state.cursor;
    let len = reader.buffer.len();
    if c + 1 < len && *reader.buffer.get(c).unwrap() == '.' {
        let d = *reader.buffer.get(c + 1).unwrap();
        if '0' <= d && d <= '9' {
            proof {
                lemma_digits_end(buf, c + 1);
            }
            let dot = reader.read().unwrap();
            crate::text::push_char(&mut s, dot);
            read_digits(reader, &mut s);
            proof {
                assert(s@ =~= buf.subrange(start.cursor as int, reader.state.cursor as int));
            }
        }
    }
    proof {
        assert(s@ =~= buf.subrange(start.cursor as int, num_end(buf, start.cursor as int)));
    }
    Ok(Value::Number(s))
}

/// Consume a run of digits, appending them to `s`.
fn read_digits(reader: &mut Reader, s: &mut String)
    requires
        old(reader).wf(),
    ensures
        final(reader).wf(),
        final(reader).buffer@ == old(reader).buffer@,
        old(reader).state.cursor <= final(reader).state.cursor,
        final(reader).state.cursor == digits_end(
            old(reader).buffer@,
            old(reader).state.cursor as int,
        ),
        final(s)@ == old(s)@ + old(reader).buffer@.subrange(
            old(reader).state.cursor as int,
            final(reader).state.cursor as int,
        ),
{
    let ghost buf = reader.buffer@;
    let start = reader.state;
    loop
        invariant
            reader.wf(),
            reader.buffer@ == buf,
            buf == old(reader).buffer@,
            start == old(reader).state,
            start.cursor <= reader.state.cursor <= buf.len(),
            s@ == old(s)@ + buf.subrange(start.cursor as int, reader.state.cursor as int),
            digits_end(buf, reader.state.cursor as int) == digits_end(buf, start.cursor as int),
        ensures
            reader.wf(),
            reader.buffer@ == buf,
            reader.state.cursor == digits_end(buf, start.cursor as int),
            s@ == old(s)@ + buf.subrange(start.cursor as int, reader.state.cursor as int),
        decreases buf.len() - reader.state.cursor,
    {
        let take: bool = match reader.peek() {
            Some(c) => '0' <= c && c <= '9',
            None => false,
        };
        if !take {
            break;
        }
        let c = reader.read().unwrap();
        crate::text::push_char(s, c);
        proof {
            assert(s@ =~= old(s)@ + buf.subrange(start.cursor as int, reader.state.cursor as int));
        }
    }
}

/// Parse a JSON list. Commits once `[` has matched.
fn list_value(reader: &mut Reader) -> (r: Result<Value, Error>)
    requires
        old(reader).wf(),
    ensures
        final(reader).wf(),
        final(reader).buffer@ == old(reader).buffer@,
        r is Ok ==> old(reader).state.cursor < final(reader).state.cursor <= old(
            reader,
        ).buffer@.len(),
        r matches Ok(v) ==> v matches Value::List { .. },
        ({
            let buf = old(reader).buffer@;
            let i = old(reader).state.cursor as int;
            if i >= buf.len() || buf[i] != '[' {
                &&& r is Err
                &&& r->Err_0.recoverable
                &&& final(reader).state == old(reader).state
            } else {
                r is Err ==> !r->Err_0.recoverable
            }
        }),
        ({
            let buf = old(reader).buffer@;
            let i = old(reader).state.cursor as int;
            let se = spaces_end(buf, i + 1);
            i < buf.len() && buf[i] == '[' && se < buf.len() && buf[se] == ']' ==> (
            r matches Ok(v) && (v matches Value::List { space0, elements } && space0@
                == buf.subrange(i + 1, se) && elements@.len() == 0) && final(reader).state.cursor
                == se + 1)
        }),
        ({
            let buf = old(reader).buffer@;
            let i = old(reader).state.cursor as int;
            i < buf.len() && buf[i] == '[' ==> ((r is Ok <==> jv_end(buf, i) is Some) && (
            r is Ok ==> final(reader).state.cursor == jv_end(buf, i)->Some_0))
        }),
    decreases old(reader).buffer@.len() - old(reader).state.cursor, 0int,
{
    let ghost buf = reader.buffer@;
    let start = reader.state;
    let is_open: bool = match reader.peek() {
        Some(c) => c == '[',
        None => false,
    };
    if !is_open {
        return Err(Error {
            pos: start.pos,
            recoverable: true,
            inner: ParseError::Expecting { value: "[".to_owned() },
        });
    }
    let _ = reader.read();
    let space0 = zero_or_more_spaces(reader).value;
    let mut elements: Vec<ListElement> = Vec::new();
    let at_close: bool = match reader.peek() {
        Some(c) => c == ']',
        None => false,
    };
    proof {
        lemma_not_keyword(buf, start.cursor as int);
        crate::parser::combinators::lemma_spaces_end(buf, start.cursor + 1);
    }
    if at_close {
        let _ = reader.read();
        proof {
            assert(jv_end(buf, start.cursor as int) == Some(reader.state.cursor as int));
        }
        return Ok(Value::List { space0, elements });
    }
    proof {
        assert(jv_end(buf, start.cursor as int) == list_rest(buf, reader.state.cursor as int));
    }
    loop
        invariant
            reader.wf(),
            reader.buffer@ == buf,
            buf == old(reader).buffer@,
            start == old(reader).state,
            start.cursor < buf.len(),
            buf[start.cursor as int] == '[',
            start.cursor < reader.state.cursor <= buf.len(),
            jv_end(buf, start.cursor as int) == list_rest(buf, reader.state.cursor as int),
            ({
                let se = spaces_end(buf, start.cursor + 1);
                se >= buf.len() || buf[se] != ']'
            }),
        decreases buf.len() - reader.state.cursor,
    {
        let ghost ktop = reader.state.cursor as int;
        let sp0 = zero_or_more_spaces(reader).value;
        let ghost p = reader.state.cursor as int;
        proof {
            crate::parser::combinators::lemma_spaces_end(buf, ktop);
        }
        let value = match parse(reader) {
            Ok(v) => v,
            Err(e) => {
                proof {
                    if jv_end(buf, p) is Some {
                        assert(json_startable(buf, p));
                    }
                    assert(list_rest(buf, ktop) is None);
                }
                return Err(Error { pos: e.pos, recoverable: false, inner: e.inner });
            },
        };
        let ghost q = reader.state.cursor as int;
        proof {
            assert(json_startable(buf, p));
            assert(jv_end(buf, p) == Some(q));
        }
        let sp1 = zero_or_more_spaces(reader).value;
        proof {
            crate::parser::combinators::lemma_spaces_end(buf, q);
        }
        elements.push(ListElement { space0: sp0, value, space1: sp1 });
        let ghost s1 = reader.state.cursor as int;
        match reader.peek() {
            Some(c) => {
                if c == ',' {
                    let _ = reader.read();
                    proof {
                        assert(list_rest(buf, ktop) == list_rest(buf, s1 + 1));
                    }
                } else if c == ']' {
                    let _ = reader.read();
                    proof {
                        assert(list_rest(buf, ktop) == Some(s1 + 1));
                    }
                    return Ok(Value::List { space0, elements });
                } else {
                    proof {
                        assert(list_rest(buf, ktop) is None);
                    }
                    return Err(Error {
                        pos: reader.state.pos,
                        recoverable: false,
                        inner: ParseError::Expecting { value: "]".to_owned() },
                    });
                }
            },
            None => {
                proof {
                    assert(list_rest(buf, ktop) is None);
                }
                return Err(Error {
                    pos: reader.state.pos,
                    recoverable: false,
                    inner: ParseError::Expecting { value: "]".to_owned() },
                });
            },
        }
    }
}

/// Read the raw body of a quoted string, for an object member name.
fn quoted_string(reader: &mut Reader) -> (r: Result<String, Error>)
    requires
        old(reader).wf(),
        old(reader).state.cursor < old(reader).buffer@.len(),
        old(reader).buffer@[old(reader).state.cursor as int] == '"',
    ensures
        final(reader).wf(),
        final(reader).buffer@ == old(reader).buffer@,
        r is Ok ==> old(reader).state.cursor < final(reader).state.cursor <= old(
            reader,
        ).buffer@.len(),
        r is Err ==> !r->Err_0.recoverable,
        ({
            let buf = old(reader).buffer@;
            let k = old(reader).state.cursor as int;
            let e = str_body_end(buf, k + 1);
            if e < buf.len() {
                r is Ok && final(reader).state.cursor == e + 1
            } else {
                r is Err
            }
        }),
{
    let _ = reader.read();
    let mut content = String::new();
    let ghost buf = reader.buffer@;
    loop
        invariant
            reader.wf(),
            reader.buffer@ == buf,
            buf == old(reader).buffer@,
            old(reader).state.cursor < reader.state.cursor <= buf.len(),
            str_body_end(buf, reader.state.cursor as int) == str_body_end(
                buf,
                old(reader).state.cursor + 1,
            ),
        decreases buf.len() - reader.state.cursor,
    {
        match reader.read() {
            None => {
                return Err(Error {
                    pos: reader.state.pos,
                    recoverable: false,
                    inner: ParseError::Expecting { value: "\"".to_owned() },
                });
            },
            Some(c) => {
                if c == '"' {
                    return Ok(content);
                }
                crate::text::push_char(&mut content, c);
                if c == '\\' {
                    match reader.read() {
                        None => {
                            return Err(Error {
                                pos: reader.state.pos,
                                recoverable: false,
                                inner: ParseError::Expecting { value: "\"".to_owned() },
                            });
                        },
                        Some(c2) => {
                            crate::text::push_char(&mut content, c2);
                        },
                    }
                }
            },
        }
    }
}

/// Parse a JSON object. Commits once `{` has matched: past it, a member must
/// open with a quote, and the error for anything else stands exactly where
/// the quote was expected.
fn object_value(reader: &mut Reader) -> (r: Result<Value, Error>)
    requires
        old(reader).wf(),
    ensures
        final(reader).wf(),
        final(reader).buffer@ == old(reader).buffer@,
        r is Ok ==> old(reader).state.cursor < final(reader).state.cursor <= old(
            reader,
        ).buffer@.len(),
        r matches Ok(v) ==> v matches Value::Object { .. },
        ({
            let buf = old(reader).buffer@;
            let i = old(reader).state.cursor as int;
            if i >= buf.len() || buf[i] != '{' {
                &&& r is Err
                &&& r->Err_0.recoverable
                &&& final(reader).state == old(reader).state
                &&& expecting_at(
                    r->Err_0,
                    old(reader).state.pos.line as int,
                    old(reader).state.pos.column as int,
                    true,
                    "{"@,
                )
            } else {
                let se = spaces_end(buf, i + 1);
                &&& (r is Err ==> !r->Err_0.recoverable)
                &&& (se < buf.len() && buf[se] == '}' ==> (r matches Ok(v) && (
                v matches Value::Object { space0, elements } && space0@ == buf.subrange(i + 1, se)
                    && elements@.len() == 0) && final(reader).state.cursor == se + 1))
                &&& (se >= buf.len() || (buf[se] != '}' && buf[se] != '"') ==> r is Err
                    && expecting_at(
                    r->Err_0,
                    line_of(buf, se),
                    col_of(buf, se),
                    false,
                    "\""@,
                ))
            }
        }),
        ({
            let buf = old(reader).buffer@;
            let i = old(reader).state.cursor as int;
            i < buf.len() && buf[i] == '{' ==> ((r is Ok <==> jv_end(buf, i) is Some) && (
            r is Ok ==> final(reader).state.cursor == jv_end(buf, i)->Some_0))
        }),
    decreases old(reader).buffer@.len() - old(reader).state.cursor, 0int,
{
    let ghost buf = reader.buffer@;
    let start = reader.state;
    let is_open: bool = match reader.peek() {
        Some(c) => c == '{',
        None => false,
    };
    if !is_open {
        return Err(Error {
            pos: start.pos,
            recoverable: true,
            inner: ParseError::Expecting { value: "{".to_owned() },
        });
    }
    let _ = reader.read();
    let space0 = zero_or_more_spaces(reader).value;
    let mut elements: Vec<ObjectElement> = Vec::new();
    let at_close: bool = match reader.peek() {
        Some(c) => c == '}',
        None => false,
    };
    proof {
        lemma_not_keyword(buf, start.cursor as int);
        crate::parser::combinators::lemma_spaces_end(buf, start.cursor + 1);
    }
    if at_close {
        let _ = reader.read();
        proof {
            assert(jv_end(buf, start.cursor as int) == Some(reader.state.cursor as int));
        }
        return Ok(Value::Object { space0, elements });
    }
    let first_quote: bool = match reader.peek() {
        Some(c) => c == '"',
        None => false,
    };
    if !first_quote {
        proof {
            assert(jv_end(buf, start.cursor as int) is None);
        }
        return Err(Error {
            pos: reader.state.pos,
            recoverable: false,
            inner: ParseError::Expecting { value: "\"".to_owned() },
        });
    }
    proof {
        assert(jv_end(buf, start.cursor as int) == obj_rest(buf, reader.state.cursor as int));
    }
    let mut sp0 = String::new();
    loop
        invariant
            reader.wf(),
            reader.buffer@ == buf,
            buf == old(reader).buffer@,
            start == old(reader).state,
            start.cursor < buf.len(),
            buf[start.cursor as int] == '{',
            start.cursor < reader.state.cursor <= buf.len(),
            jv_end(buf, start.cursor as int) == obj_rest(buf, reader.state.cursor as int),
            ({
                let se = spaces_end(buf, start.cursor + 1);
                se < buf.len() && buf[se] == '"'
            }),
        decreases buf.len() - reader.state.cursor,
    {
        let ghost ktop = reader.state.cursor as int;
        let at_quote: bool = match reader.peek() {
            Some(c) => c == '"',
            None => false,
        };
        if !at_quote {
            return Err(Error {
                pos: reader.state.pos,
                recoverable: false,
                inner: ParseError::Expecting { value: "\"".to_owned() },
            });
        }
        proof {
            lemma_str_body_end(buf, ktop + 1);
        }
        let name = match quoted_string(reader) {
            Ok(n) => n,
            Err(e) => {
                proof {
                    assert(obj_rest(buf, ktop) is None);
                }
                return Err(e);
            },
        };
        let ghost qe = str_body_end(buf, ktop + 1);
        let space1 = zero_or_more_spaces(reader).value;
        proof {
            crate::parser::combinators::lemma_spaces_end(buf, qe + 1);
        }
        let ghost s1 = reader.state.cursor as int;
        let at_colon: bool = match reader.peek() {
            Some(c) => c == ':',
            None => false,
        };
        if !at_colon {
            proof {
                assert(obj_rest(buf, ktop) is None);
            }
            return Err(Error {
                pos: reader.state.pos,
                recoverable: false,
                inner: ParseError::Expecting { value: ":".to_owned() },
            });
        }
        let _ = reader.read();
        let space2 = zero_or_more_spaces(reader).value;
        proof {
            crate::parser::combinators::lemma_spaces_end(buf, s1 + 1);
        }
        let ghost s2 = reader.state.cursor as int;
        let value = match parse(reader) {
            Ok(v) => v,
            Err(e) => {
                proof {
                    if jv_end(buf, s2) is Some {
                        assert(json_startable(buf, s2));
                    }
                    assert(obj_rest(buf, ktop) is None);
                }
                return Err(Error { pos: e.pos, recoverable: false, inner: e.inner });
            },
        };
        let ghost q = reader.state.cursor as int;
        proof {
            assert(json_startable(buf, s2));
            assert(jv_end(buf, s2) == Some(q));
            crate::parser::combinators::lemma_spaces_end(buf, q);
        }
        let space3 = zero_or_more_spaces(reader).value;
        let ghost s3 = reader.state.cursor as int;
        elements.push(ObjectElement { space0: sp0, name, space1, space2, value, space3 });
        match reader.peek() {
            Some(c) => {
                if c == ',' {
                    let _ = reader.read();
                    sp0 = zero_or_more_spaces(reader).value;
                    proof {
                        crate::parser::combinators::lemma_spaces_end(buf, s3 + 1);
                        assert(obj_rest(buf, ktop) == obj_rest(
                            buf,
                            reader.state.cursor as int,
                        ));
                    }
                } else if c == '}' {
                    let _ = reader.read();
                    proof {
                        assert(obj_rest(buf, ktop) == Some(s3 + 1));
                    }
                    return Ok(Value::Object { space0, elements });
                } else {
                    proof {
                        assert(obj_rest(buf, ktop) is None);
                    }
                    return Err(Error {
                        pos: reader.state.pos,
                        recoverable: false,
                        inner: ParseError::Expecting { value: "}".to_owned() },
                    });
                }
            },
            None => {
                proof {
                    assert(obj_rest(buf, ktop) is None);
                }
                return Err(Error {
                    pos: reader.state.pos,
                    recoverable: false,
                    inner: ParseError::Expecting { value: "}".to_owned() },
                });
            },
        }
    }
}

} // verus!
