use vstd::prelude::*;

use crate::reader::Reader;

verus! {

/// The 6-bit value of a base64 alphabet character, or -1 for any other.
pub open spec fn b64_val(c: char) -> int {
    if 'A' <= c && c <= 'Z' {
        c as int - 65
    } else if 'a' <= c && c <= 'z' {
        c as int - 71
    } else if '0' <= c && c <= '9' {
        c as int + 4
    } else if c == '+' {
        62
    } else if c == '/' {
        63
    } else {
        -1
    }
}

pub open spec fn is_b64_char(c: char) -> bool {
    b64_val(c) >= 0
}

/// Whitespace is insignificant inside a base64 payload.
pub open spec fn is_b64_space(c: char) -> bool {
    c == ' ' || c == '\t' || c == '\n' || c == '\r'
}

/// The 6-bit values of the alphabet characters of `s`, whitespace discarded.
pub open spec fn b64_vals_of(s: Seq<char>) -> Seq<u8>
    decreases s.len(),
{
    if s.len() == 0 {
        Seq::empty()
    } else if is_b64_char(s.last()) {
        b64_vals_of(s.drop_last()).push(b64_val(s.last()) as u8)
    } else {
        b64_vals_of(s.drop_last())
    }
}

/// The bytes encoded by a sequence of 6-bit values: groups of four give
/// three bytes; a final group of three gives two, of two gives one.
pub open spec fn b64_decode(vals: Seq<u8>) -> Seq<u8>
    decreases vals.len(),
{
    if vals.len() >= 4 {
        seq![
            byte0(vals[0], vals[1]),
            byte1(vals[1], vals[2]),
            byte2(vals[2], vals[3]),
        ] + b64_decode(vals.skip(4))
    } else if vals.len() == 3 {
        seq![byte0(vals[0], vals[1]), byte1(vals[1], vals[2])]
    } else if vals.len() == 2 {
        seq![byte0(vals[0], vals[1])]
    } else {
        Seq::empty()
    }
}

pub open spec fn byte0(a: u8, b: u8) -> u8 {
    (a << 2) | (b >> 4)
}

pub open spec fn byte1(b: u8, c: u8) -> u8 {
    (b << 4) | (c >> 2)
}

pub open spec fn byte2(c: u8, d: u8) -> u8 {
    (c << 6) | d
}

/// The first offset at or after `i` that holds neither an alphabet
/// character nor whitespace.
pub open spec fn b64_scan_end(buf: Seq<char>, i: int) -> int
    decreases buf.len() - i,
{
    if 0 <= i < buf.len() && (is_b64_char(buf[i]) || is_b64_space(buf[i])) {
        b64_scan_end(buf, i + 1)
    } else {
        i
    }
}

/// The end of a run of padding characters starting at `i`.
pub open spec fn pad_end(buf: Seq<char>, i: int) -> int
    decreases buf.len() - i,
{
    if 0 <= i < buf.len() && buf[i] == '=' {
        pad_end(buf, i + 1)
    } else {
        i
    }
}

/// Where a base64 payload beginning at `i` ends: at the first foreign
/// character, or after the padding run that closes the payload.
pub open spec fn b64_region_end(buf: Seq<char>, i: int) -> int {
    let m = b64_scan_end(buf, i);
    if m < buf.len() && buf[m] == '=' {
        pad_end(buf, m)
    } else {
        m
    }
}

/// The 6-bit value of `c`, if it is a base64 alphabet character.
fn char_val(c: char) -> (r: Option<u8>)
    ensures
        r is Some <==> is_b64_char(c),
        r matches Some(v) ==> v as int == b64_val(c),
{
    if 'A' <= c && c <= 'Z' {
        Some(c as u8 - 65)
    } else if 'a' <= c && c <= 'z' {
        Some(c as u8 - 71)
    } else if '0' <= c && c <= '9' {
        Some(c as u8 + 4)
    } else if c == '+' {
        Some(62)
    } else if c == '/' {
        Some(63)
    } else {
        None
    }
}

/// Turn the 6-bit values from `vals[i..]` into bytes.
fn decode_vals(vals: &Vec<u8>, i: usize) -> (out: Vec<u8>)
    requires
        i <= vals@.len(),
    ensures
        out@ == b64_decode(vals@.skip(i as int)),
    decreases vals@.len() - i,
{
    let ghost tail = vals@.skip(i as int);
    let n = vals.len();
    if n - i >= 4 {
        let mut out: Vec<u8> = Vec::new();
        out.push((vals[i] << 2u8) | (vals[i + 1] >> 4u8));
        out.push((vals[i + 1] << 4u8) | (vals[i + 2] >> 2u8));
        out.push((vals[i + 2] << 6u8) | (vals[i + 3]));
        let mut rest = decode_vals(vals, i + 4);
        proof {
            assert(tail.skip(4) =~= vals@.skip(i + 4));
            assert(tail[0] == vals@[i as int] && tail[1] == vals@[i + 1] && tail[2] == vals@[i + 2]
                && tail[3] == vals@[i + 3]);
        }
        out.append(&mut rest);
        proof {
            assert(out@ =~= b64_decode(tail));
        }
        out
    } else if n - i == 3 {
        let mut out: Vec<u8> = Vec::new();
        out.push((vals[i] << 2u8) | (vals[i + 1] >> 4u8));
        out.push((vals[i + 1] << 4u8) | (vals[i + 2] >> 2u8));
        proof {
            assert(out@ =~= b64_decode(tail));
        }
        out
    } else if n - i == 2 {
        let mut out: Vec<u8> = Vec::new();
        out.push((vals[i] << 2u8) | (vals[i + 1] >> 4u8));
        proof {
            assert(out@ =~= b64_decode(tail));
        }
        out
    } else {
        let out: Vec<u8> = Vec::new();
        proof {
            assert(out@ =~= b64_decode(tail));
        }
        out
    }
}

/// Consume a base64 payload: alphabet characters with insignificant interior
/// whitespace, closed by an optional padding run. Never fails; returns the
/// decoded bytes. The caller can recover the consumed text from the cursor.
pub fn parse(reader: &mut Reader) -> (r: Vec<u8>)
    requires
        old(reader).wf(),
    ensures
        final(reader).wf(),
        final(reader).buffer@ == old(reader).buffer@,
        old(reader).state.cursor <= final(reader).state.cursor,
        final(reader).state.cursor == b64_region_end(
            old(reader).buffer@,
            old(reader).state.cursor as int,
        ),
        r@ == b64_decode(
            b64_vals_of(
                old(reader).buffer@.subrange(
                    old(reader).state.cursor as int,
                    final(reader).state.cursor as int,
                ),
            ),
        ),
{
    let ghost buf = reader.buffer@;
    let start = reader.state;
    let mut vals: Vec<u8> = Vec::new();
    loop
        invariant
            reader.wf(),
            reader.buffer@ == buf,
            buf == old(reader).buffer@,
            start == old(reader).state,
            start.cursor <= reader.state.cursor <= buf.len(),
            vals@ == b64_vals_of(buf.subrange(start.cursor as int, reader.state.cursor as int)),
            b64_scan_end(buf, reader.state.cursor as int) == b64_scan_end(
                buf,
                start.cursor as int,
            ),
            forall|j: int|
                start.cursor <= j < reader.state.cursor ==> is_b64_char(buf[j]) || is_b64_space(
                    buf[j],
                ),
        ensures
            reader.wf(),
            reader.buffer@ == buf,
            reader.state.cursor == b64_region_end(buf, start.cursor as int),
            vals@ == b64_vals_of(buf.subrange(start.cursor as int, reader.state.cursor as int)),
        decreases buf.len() - reader.state.cursor,
    {
        let ghost pre = reader.state.cursor as int;
        let next = reader.peek();
        match next {
            None => {
                break;
            },
            Some(c) => {
                if c == ' ' || c == '\t' || c == '\n' || c == '\r' {
                    let _ = reader.read();
                    proof {
                        lemma_vals_of_step(buf, start.cursor as int, pre);
                    }
                } else if c == '=' {
                    // A padding run closes the payload.
                    let ghost m = reader.state.cursor as int;
                    loop
                        invariant
                            reader.wf(),
                            reader.buffer@ == buf,
                            m <= reader.state.cursor <= buf.len(),
                            pad_end(buf, reader.state.cursor as int) == pad_end(buf, m),
                            forall|j: int| m <= j < reader.state.cursor ==> buf[j] == '=',
                        ensures
                            reader.wf(),
                            reader.buffer@ == buf,
                            reader.state.cursor == pad_end(buf, m),
                            forall|j: int| m <= j < reader.state.cursor ==> buf[j] == '=',
                        decreases buf.len() - reader.state.cursor,
                    {
                        let more: bool = match reader.peek() {
                            Some(p) => p == '=',
                            None => false,
                        };
                        if !more {
                            break;
                        }
                        let _ = reader.read();
                    }
                    proof {
                        lemma_vals_of_pad(buf, start.cursor as int, m, reader.state.cursor as int);
                        assert(vals@.skip(0) =~= vals@);
                    }
                    return decode_vals(&vals, 0);
                } else {
                    match char_val(c) {
                        Some(v) => {
                            let _ = reader.read();
                            vals.push(v);
                            proof {
                                lemma_vals_of_step(buf, start.cursor as int, pre);
                            }
                        },
                        None => {
                            break;
                        },
                    }
                }
            },
        }
    }
    proof {
        assert(vals@.skip(0) =~= vals@);
    }
    decode_vals(&vals, 0)
}

/// Appending one more consumed character extends the filtered values in the
/// expected way.
proof fn lemma_vals_of_step(buf: Seq<char>, s: int, p: int)
    requires
        0 <= s <= p < buf.len(),
    ensures
        b64_vals_of(buf.subrange(s, p + 1)) == if is_b64_char(buf[p]) {
            b64_vals_of(buf.subrange(s, p)).push(b64_val(buf[p]) as u8)
        } else {
            b64_vals_of(buf.subrange(s, p))
        },
{
    let ext = buf.subrange(s, p + 1);
    assert(ext.drop_last() =~= buf.subrange(s, p));
    assert(ext.last() == buf[p]);
}

/// Padding characters contribute no values.
proof fn lemma_vals_of_pad(buf: Seq<char>, s: int, m: int, e: int)
    requires
        0 <= s <= m <= e <= buf.len(),
        forall|j: int| m <= j < e ==> buf[j] == '=',
    ensures
        b64_vals_of(buf.subrange(s, e)) == b64_vals_of(buf.subrange(s, m)),
    decreases e - m,
{
    if e > m {
        assert(buf.subrange(s, e).drop_last() =~= buf.subrange(s, e - 1));
        assert(buf.subrange(s, e).last() == buf[e - 1]);
        assert(!is_b64_char(buf[e - 1]));
        lemma_vals_of_pad(buf, s, m, e - 1);
    }
}

} // verus!
