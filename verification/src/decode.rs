use crate::cursor::ByteCursor;
use crate::tree::{LooseMap, Value, ValueView};
use vstd::prelude::*;
use vstd::utf8::{decode_utf8, valid_utf8};

verus! {

/// Tag byte introducing a nested object entry.
pub const TAG_OBJECT: u8 = 0;

/// Tag byte introducing a text entry.
pub const TAG_TEXT: u8 = 1;

/// Tag byte introducing a 32-bit unsigned integer entry.
pub const TAG_INT: u8 = 2;

/// Tag byte ending the current object scope.
pub const TAG_END: u8 = 8;

/// Byte ending a key or a text value.
pub const STRING_END: u8 = 0;

/// A fatal decoding failure: the whole decode is abandoned.
#[derive(Clone, Copy, Debug, PartialEq, Eq, Structural)]
pub enum DecodeError {
    /// A key or a text value is not valid text under the fixed encoding.
    MalformedText,
    /// End of input inside the four bytes of an integer value.
    TruncatedInteger,
}

/// Position of the first zero byte at or after `pos`, or the length of the
/// input when no zero byte follows.
pub open spec fn find_nul(s: Seq<u8>, pos: int) -> int
    recommends
        0 <= pos <= s.len(),
    decreases s.len() - pos,
{
    if pos < 0 || pos >= s.len() {
        s.len() as int
    } else if s[pos] == STRING_END {
        pos
    } else {
        find_nul(s, pos + 1)
    }
}

/// Outcome of reading a zero-terminated byte run: the bytes before the
/// terminator, and the position after the terminator (after the last byte
/// of the input when no terminator follows).
pub struct CstrRead {
    pub bytes: Seq<u8>,
    pub next: int,
}

/// Read a zero-terminated byte run starting at `pos`. The terminator is
/// consumed but is not part of the bytes read; end of input acts as an
/// implicit terminator.
pub open spec fn spec_read_cstring(s: Seq<u8>, pos: int) -> CstrRead {
    let nul = find_nul(s, pos);
    CstrRead {
        bytes: s.subrange(pos, nul),
        next: if nul < s.len() {
            nul + 1
        } else {
            s.len() as int
        },
    }
}

/// The 32-bit unsigned integer assembled from four bytes by OR-ing each
/// byte into increasing bit positions, in the order received.
pub open spec fn le_u32(b0: u8, b1: u8, b2: u8, b3: u8) -> u32 {
    (b0 as u32) | ((b1 as u32) << 8) | ((b2 as u32) << 16) | ((b3 as u32) << 24)
}

/// Outcome of parsing one object scope.
pub enum ObjParse {
    /// The scope is complete: the map it described, the position just past
    /// the bytes it consumed, and whether an explicit terminator tag
    /// (rather than end of input) closed it.
    Done { map: Map<Seq<char>, ValueView>, end: int, terminated: bool },
    /// A fatal failure; the whole decode is abandoned.
    Failed { err: DecodeError },
}

/// Keep a continuation position inside `(pos, s.len()]`. The positions the
/// parse produces already lie there (see `lemma_parse_object_bounds`), so
/// this changes nothing; it only makes the descent of `spec_parse_object`
/// evident.
pub open spec fn step_pos(s: Seq<u8>, pos: int, next: int) -> int {
    if next <= pos {
        pos + 1
    } else if next > s.len() {
        s.len() as int
    } else {
        next
    }
}

/// Parse one object scope of the wire format, starting at `pos`, on top of
/// the entries `acc` already read for this scope.
///
/// Each entry is a tag byte, a zero-terminated key, and a value selected
/// by the tag: a nested object scope, zero-terminated text, or exactly
/// four little-endian integer bytes. A tag equal to `TAG_END` closes the
/// scope, as does end of input; an entry with any other unassigned tag is
/// dropped (its key is still consumed) and parsing continues. A later
/// entry for a key already read overwrites the earlier one.
pub open spec fn spec_parse_object(s: Seq<u8>, pos: int, acc: Map<Seq<char>, ValueView>) -> ObjParse
    decreases s.len() - pos,
{
    if pos < 0 || pos >= s.len() {
        ObjParse::Done { map: acc, end: s.len() as int, terminated: false }
    } else if s[pos] == TAG_END {
        ObjParse::Done { map: acc, end: pos + 1, terminated: true }
    } else {
        let tag = s[pos];
        let kr = spec_read_cstring(s, pos + 1);
        if !valid_utf8(kr.bytes) {
            ObjParse::Failed { err: DecodeError::MalformedText }
        } else {
            let key = decode_utf8(kr.bytes);
            let kn = step_pos(s, pos, kr.next);
            if tag == TAG_OBJECT {
                match spec_parse_object(s, kn, Map::empty()) {
                    ObjParse::Failed { err } => ObjParse::Failed { err },
                    ObjParse::Done { map: sub, end, terminated } => spec_parse_object(
                        s,
                        step_pos(s, pos, end),
                        acc.insert(key, ValueView::Object(sub)),
                    ),
                }
            } else if tag == TAG_TEXT {
                let vr = spec_read_cstring(s, kn);
                if !valid_utf8(vr.bytes) {
                    ObjParse::Failed { err: DecodeError::MalformedText }
                } else {
                    spec_parse_object(
                        s,
                        step_pos(s, pos, vr.next),
                        acc.insert(key, ValueView::Text(decode_utf8(vr.bytes))),
                    )
                }
            } else if tag == TAG_INT {
                if kn + 4 > s.len() {
                    ObjParse::Failed { err: DecodeError::TruncatedInteger }
                } else {
                    spec_parse_object(
                        s,
                        kn + 4,
                        acc.insert(key, ValueView::Int(le_u32(s[kn], s[kn + 1], s[kn + 2], s[kn + 3]))),
                    )
                }
            } else {
                spec_parse_object(s, kn, acc)
            }
        }
    }
}

/// The first zero byte lies between `pos` and the end of the input.
pub proof fn lemma_find_nul_bounds(s: Seq<u8>, pos: int)
    requires
        0 <= pos <= s.len(),
    ensures
        pos <= find_nul(s, pos) <= s.len(),
    decreases s.len() - pos,
{
    if pos < s.len() && s[pos] != STRING_END {
        lemma_find_nul_bounds(s, pos + 1);
    }
}

/// Finding the zero terminator is stable under extending the input with
/// more bytes, as long as the unextended bytes already hold one.
pub proof fn lemma_find_nul_prefix(s: Seq<u8>, ext: Seq<u8>, pos: int)
    requires
        0 <= pos <= s.len(),
        find_nul(s, pos) < s.len(),
    ensures
        find_nul(s + ext, pos) == find_nul(s, pos),
    decreases s.len() - pos,
{
    assert(pos < s.len());
    assert((s + ext)[pos] == s[pos]);
    if s[pos] != STRING_END {
        lemma_find_nul_prefix(s, ext, pos + 1);
    }
}

/// `find_nul` returns exactly the position of the first zero byte: if no
/// byte in `[pos, i)` is zero and `i` is the end of the input or holds a
/// zero byte, the answer is `i`.
pub proof fn lemma_find_nul_at(s: Seq<u8>, pos: int, i: int)
    requires
        0 <= pos <= i <= s.len(),
        forall|j: int| pos <= j < i ==> s[j] != STRING_END,
        i < s.len() ==> s[i] == STRING_END,
    ensures
        find_nul(s, pos) == i,
    decreases i - pos,
{
    if pos < i {
        lemma_find_nul_at(s, pos + 1, i);
    }
}

/// A completed object parse never moves backwards nor past the end of the
/// input; and only a parse that ran out of input, rather than meeting a
/// terminator tag, stops exactly at the end.
pub proof fn lemma_parse_object_bounds(s: Seq<u8>, pos: int, acc: Map<Seq<char>, ValueView>)
    requires
        0 <= pos <= s.len(),
    ensures
        spec_parse_object(s, pos, acc) matches ObjParse::Done { end, terminated, .. } ==> pos
            <= end <= s.len() && (!terminated ==> end == s.len()),
    decreases s.len() - pos,
{
    if 0 <= pos < s.len() && s[pos] != TAG_END {
        let tag = s[pos];
        let kr = spec_read_cstring(s, pos + 1);
        if valid_utf8(kr.bytes) {
            let key = decode_utf8(kr.bytes);
            let kn = step_pos(s, pos, kr.next);
            if tag == TAG_OBJECT {
                lemma_parse_object_bounds(s, kn, Map::empty());
                match spec_parse_object(s, kn, Map::empty()) {
                    ObjParse::Failed { .. } => {},
                    ObjParse::Done { map: sub, end, terminated } => {
                        lemma_parse_object_bounds(
                            s,
                            step_pos(s, pos, end),
                            acc.insert(key, ValueView::Object(sub)),
                        );
                    },
                }
            } else if tag == TAG_TEXT {
                let vr = spec_read_cstring(s, kn);
                if valid_utf8(vr.bytes) {
                    lemma_parse_object_bounds(
                        s,
                        step_pos(s, pos, vr.next),
                        acc.insert(key, ValueView::Text(decode_utf8(vr.bytes))),
                    );
                }
            } else if tag == TAG_INT {
                if kn + 4 <= s.len() {
                    lemma_parse_object_bounds(
                        s,
                        kn + 4,
                        acc.insert(
                            key,
                            ValueView::Int(le_u32(s[kn], s[kn + 1], s[kn + 2], s[kn + 3])),
                        ),
                    );
                }
            } else {
                lemma_parse_object_bounds(s, kn, acc);
            }
        }
    }
}

/// Relies on `String::from_utf8`: it succeeds exactly on byte sequences
/// that are valid UTF-8, and the characters of the string it builds are
/// the UTF-8 decoding of those bytes.
#[verifier::external_body]
pub(crate) fn bytes_to_string(b: Vec<u8>) -> (r: Option<String>)
    ensures
        r is Some <==> valid_utf8(b@),
        r is Some ==> r->Some_0@ == decode_utf8(b@),
{
    String::from_utf8(b).ok()
}

/// Read a zero-terminated byte run from the cursor and decode it as text.
/// The terminator is consumed and is not part of the result; end of input
/// acts as an implicit terminator. Bytes that are not valid text under the
/// fixed encoding are a fatal error.
#[verifier::loop_isolation(false)]
pub fn read_next_string(cur: &mut ByteCursor) -> (r: Result<String, DecodeError>)
    requires
        old(cur).wf(),
    ensures
        final(cur).bytes() == old(cur).bytes(),
        final(cur).wf(),
        ({
            let cr = spec_read_cstring(old(cur).bytes(), old(cur).at());
            &&& final(cur).at() == cr.next
            &&& valid_utf8(cr.bytes) ==> r is Ok && r->Ok_0@ == decode_utf8(cr.bytes)
            &&& !valid_utf8(cr.bytes) ==> r is Err && r->Err_0 == DecodeError::MalformedText
        }),
{
    let ghost s = old(cur).bytes();
    let ghost start = old(cur).at();
    let mut buf: Vec<u8> = Vec::new();
    loop
        invariant
            cur.wf(),
            cur.bytes() == s,
            start <= cur.at() <= s.len(),
            buf@ == s.subrange(start, cur.at()),
            forall|j: int| start <= j < cur.at() ==> s[j] != STRING_END,
        decreases s.len() - cur.at(),
    {
        let ghost here = cur.at();
        match cur.next_byte() {
            None => {
                proof {
                    lemma_find_nul_at(s, start, s.len() as int);
                    assert(spec_read_cstring(s, start).bytes =~= buf@);
                }
                return match bytes_to_string(buf) {
                    Some(text) => Ok(text),
                    None => Err(DecodeError::MalformedText),
                };
            },
            Some(b) => {
                if b == STRING_END {
                    proof {
                        lemma_find_nul_at(s, start, here);
                        assert(spec_read_cstring(s, start).bytes =~= buf@);
                    }
                    return match bytes_to_string(buf) {
                        Some(text) => Ok(text),
                        None => Err(DecodeError::MalformedText),
                    };
                }
                buf.push(b);
            },
        }
    }
}

/// OR-ing each of four bytes into increasing bit positions equals taking
/// the first byte as the lowest-order eight bits, the second as the next
/// eight, and so on: little-endian assembly.
pub proof fn lemma_le_u32_value(b0: u8, b1: u8, b2: u8, b3: u8)
    ensures
        le_u32(b0, b1, b2, b3) == b0 + (b1 as int) * 0x100 + (b2 as int) * 0x1_0000 + (
        b3 as int) * 0x100_0000,
{
    assert((b0 as u32) | ((b1 as u32) << 8) | ((b2 as u32) << 16) | ((b3 as u32) << 24) == (
    b0 as u32) + (b1 as u32) * 0x100 + (b2 as u32) * 0x1_0000 + (b3 as u32) * 0x100_0000)
        by (bit_vector);
}

/// Read exactly four bytes and assemble the 32-bit little-endian integer
/// they encode. End of input before the fourth byte is a fatal error.
fn read_u32_le(cur: &mut ByteCursor) -> (r: Result<u32, DecodeError>)
    requires
        old(cur).wf(),
    ensures
        final(cur).bytes() == old(cur).bytes(),
        final(cur).wf(),
        old(cur).at() + 4 <= old(cur).bytes().len() ==> ({
            let s = old(cur).bytes();
            let p = old(cur).at();
            &&& r is Ok
            &&& r->Ok_0 == le_u32(s[p], s[p + 1], s[p + 2], s[p + 3])
            &&& final(cur).at() == p + 4
        }),
        old(cur).at() + 4 > old(cur).bytes().len() ==> r is Err && r->Err_0
            == DecodeError::TruncatedInteger && final(cur).at() == old(cur).bytes().len(),
{
    let b0 = match cur.next_byte() {
        Some(b) => b,
        None => { return Err(DecodeError::TruncatedInteger) },
    };
    let b1 = match cur.next_byte() {
        Some(b) => b,
        None => { return Err(DecodeError::TruncatedInteger) },
    };
    let b2 = match cur.next_byte() {
        Some(b) => b,
        None => { return Err(DecodeError::TruncatedInteger) },
    };
    let b3 = match cur.next_byte() {
        Some(b) => b,
        None => { return Err(DecodeError::TruncatedInteger) },
    };
    let v = (b0 as u32) | ((b1 as u32) << 8) | ((b2 as u32) << 16) | ((b3 as u32) << 24);
    Ok(v)
}

/// Parse one object scope from the cursor: entries until a terminator tag
/// or end of input, exactly as [`spec_parse_object`] describes. On success
/// the returned node's abstract content is the parsed map and the cursor
/// stands just past the bytes of the scope (the terminator included).
#[verifier::loop_isolation(false)]
pub fn parse_object(cur: &mut ByteCursor) -> (r: Result<LooseMap, DecodeError>)
    requires
        old(cur).wf(),
    ensures
        final(cur).bytes() == old(cur).bytes(),
        final(cur).wf(),
        old(cur).at() <= final(cur).at(),
        match spec_parse_object(old(cur).bytes(), old(cur).at(), Map::empty()) {
            ObjParse::Done { map, end, terminated } => r is Ok && r->Ok_0@ == map
                && final(cur).at() == end,
            ObjParse::Failed { err } => r is Err && r->Err_0 == err,
        },
    decreases old(cur).bytes().len() - old(cur).at(),
{
    let ghost s = old(cur).bytes();
    let ghost start = old(cur).at();
    let mut map = LooseMap::new();
    loop
        invariant
            cur.wf(),
            cur.bytes() == s,
            start <= cur.at() <= s.len(),
            spec_parse_object(s, start, Map::empty()) == spec_parse_object(s, cur.at(), map@),
        decreases s.len() - cur.at(),
    {
        let ghost pos = cur.at();
        let tag = match cur.next_byte() {
            None => { return Ok(map) },
            Some(t) => t,
        };
        if tag == TAG_END {
            return Ok(map);
        }
        proof {
            lemma_find_nul_bounds(s, pos + 1);
        }
        let key = match read_next_string(cur) {
            Ok(k) => k,
            Err(e) => { return Err(e) },
        };
        let ghost kn = cur.at();
        assert(kn == step_pos(s, pos, spec_read_cstring(s, pos + 1).next));
        if tag == TAG_OBJECT {
            proof {
                lemma_parse_object_bounds(s, kn, Map::empty());
            }
            let sub = match parse_object(cur) {
                Ok(m) => m,
                Err(e) => { return Err(e) },
            };
            map.insert(key, Value::Object(sub));
        } else if tag == TAG_TEXT {
            proof {
                lemma_find_nul_bounds(s, kn);
            }
            let text = match read_next_string(cur) {
                Ok(t) => t,
                Err(e) => { return Err(e) },
            };
            map.insert(key, Value::Text(text));
        } else if tag == TAG_INT {
            let n = match read_u32_le(cur) {
                Ok(n) => n,
                Err(e) => { return Err(e) },
            };
            map.insert(key, Value::Int(n));
        } else {
            // Unrecognized tag: this one entry is dropped (the key was
            // still consumed) and the parse continues.
        }
    }
}

} // verus!
