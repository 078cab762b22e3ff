use crate::cursor::ByteCursor;
use crate::decode::{bytes_to_string, parse_object, spec_parse_object, DecodeError, ObjParse};
use crate::shortcut::{spec_project, ProjectError, Shortcut};
use crate::tree::{LooseMap, Value, ValueView};
use vstd::prelude::*;
use vstd::utf8::{encode_utf8, encode_utf8_decode_utf8, encode_utf8_valid_utf8, is_ascii_chars,
    is_ascii_chars_encode_utf8};

verus! {

/// The decimal digit bytes of `n`, most significant digit first, with no
/// sign and no leading zero (a single zero digit for zero).
pub open spec fn decimal_bytes(n: nat) -> Seq<u8>
    decreases n,
{
    if n < 10 {
        seq![(48 + n) as u8]
    } else {
        decimal_bytes(n / 10).push((48 + n % 10) as u8)
    }
}

/// The decimal digit characters of `n`: the decimal string form of an
/// index, used as a child key in the shortcuts sub-tree.
pub open spec fn decimal_chars(n: nat) -> Seq<char> {
    decimal_bytes(n).map_values(|b: u8| b as char)
}

/// Decimal digits are ASCII, so their UTF-8 encoding is the digit bytes
/// themselves.
proof fn lemma_decimal_ascii(n: nat)
    ensures
        is_ascii_chars(decimal_chars(n)),
        encode_utf8(decimal_chars(n)) == decimal_bytes(n),
    decreases n,
{
    let bytes = decimal_bytes(n);
    let chars = decimal_chars(n);
    assert forall|i: int| 0 <= i < bytes.len() implies 48 <= #[trigger] bytes[i] <= 57 by {
        lemma_decimal_bytes_digits(n);
    }
    assert(is_ascii_chars(chars));
    is_ascii_chars_encode_utf8(chars);
    assert(encode_utf8(chars) =~= bytes);
}

/// Every byte of the decimal form is a digit byte.
proof fn lemma_decimal_bytes_digits(n: nat)
    ensures
        forall|i: int| 0 <= i < decimal_bytes(n).len() ==> 48 <= #[trigger] decimal_bytes(n)[i]
            <= 57,
    decreases n,
{
    if n >= 10 {
        lemma_decimal_bytes_digits(n / 10);
        let prefix = decimal_bytes(n / 10);
        assert forall|i: int| 0 <= i < decimal_bytes(n).len() implies 48 <= #[trigger] decimal_bytes(
            n,
        )[i] <= 57 by {
            if i < prefix.len() {
                assert(decimal_bytes(n)[i] == prefix[i]);
            } else {
                assert(decimal_bytes(n)[i] == (48 + n % 10) as u8);
            }
        }
    }
}

/// The decimal string form of an index.
pub fn index_key(idx: u32) -> (r: String)
    ensures
        r@ == decimal_chars(idx as nat),
{
    let mut buf: Vec<u8> = Vec::new();
    push_decimal(idx, &mut buf);
    proof {
        lemma_decimal_ascii(idx as nat);
        encode_utf8_valid_utf8(decimal_chars(idx as nat));
        encode_utf8_decode_utf8(decimal_chars(idx as nat));
        assert(buf@ =~= decimal_bytes(idx as nat));
    }
    match bytes_to_string(buf) {
        Some(s) => s,
        None => vstd::pervasive::unreached(),
    }
}

/// Append the decimal digit bytes of `n`.
fn push_decimal(n: u32, out: &mut Vec<u8>)
    ensures
        final(out)@ == old(out)@ + decimal_bytes(n as nat),
    decreases n,
{
    if n < 10 {
        out.push(48 + (n as u8));
        proof {
            assert(out@ =~= old(out)@ + decimal_bytes(n as nat));
        }
    } else {
        push_decimal(n / 10, out);
        out.push(48 + ((n % 10) as u8));
        proof {
            assert(out@ =~= old(out)@ + decimal_bytes(n as nat));
        }
    }
}

/// Why a byte source could not be opened as a shortcut collection.
#[derive(Clone, Copy, Debug, PartialEq, Eq, Structural)]
pub enum ParserError {
    /// Decoding the byte stream failed; the whole parse is abandoned.
    Decode(DecodeError),
    /// The decoded root tree has no "shortcuts" key, or that key does not
    /// hold an object.
    InvalidStructure,
}

/// The decoded shortcuts of one byte source, exposed as an ordered,
/// index-addressed sequence of records.
///
/// Iteration is lazy, finite and non-restartable: each step looks the
/// decimal form of the current index up in the shortcuts sub-tree,
/// projects it, and advances; the first missing index, or a malformed
/// element, terminates the sequence permanently.
pub struct Parser {
    filename: String,
    parsed_map: LooseMap,
    idx: u32,
    done: bool,
}

impl Parser {
    /// The name of the byte source the collection came from.
    pub closed spec fn source_name(&self) -> Seq<char> {
        self.filename@
    }

    /// The abstract content of the shortcuts sub-tree backing this
    /// collection.
    pub closed spec fn shortcuts(&self) -> Map<Seq<char>, ValueView> {
        self.parsed_map@
    }

    /// The index the next step will look up.
    pub closed spec fn index(&self) -> u32 {
        self.idx
    }

    /// Whether the sequence has terminated permanently.
    pub closed spec fn exhausted(&self) -> bool {
        self.done
    }

    /// Decode a byte source and locate its single top-level "shortcuts"
    /// sub-tree, the collection's backing store. A decode failure, a
    /// missing "shortcuts" key and a "shortcuts" value of the wrong type
    /// are each a fatal error.
    pub fn new(filename: &str, data: Vec<u8>) -> (r: Result<Parser, ParserError>)
        ensures
            match spec_parse_object(data@, 0, Map::empty()) {
                ObjParse::Failed { err } => r is Err && r->Err_0 == ParserError::Decode(err),
                ObjParse::Done { map, .. } => {
                    if map.contains_key("shortcuts"@) && map["shortcuts"@] is Object {
                        &&& r is Ok
                        &&& r->Ok_0.shortcuts() == map["shortcuts"@]->Object_0
                        &&& r->Ok_0.source_name() == filename@
                        &&& r->Ok_0.index() == 0
                        &&& !r->Ok_0.exhausted()
                    } else {
                        r is Err && r->Err_0 == ParserError::InvalidStructure
                    }
                },
            },
    {
        let mut cur = ByteCursor::new(data);
        let root = match parse_object(&mut cur) {
            Ok(m) => m,
            Err(e) => { return Err(ParserError::Decode(e)) },
        };
        match root.into_entry(&"shortcuts".to_string()) {
            Some(v) => match v {
                Value::Object(m) => Ok(
                    Parser { filename: filename.to_string(), parsed_map: m, idx: 0, done: false },
                ),
                _ => Err(ParserError::InvalidStructure),
            },
            None => Err(ParserError::InvalidStructure),
        }
    }

    /// The name of the byte source the collection came from.
    pub fn filename(self) -> (r: String)
        ensures
            r@ == self.source_name(),
    {
        self.filename
    }

    /// Yield the next record, or report that the sequence has ended.
    ///
    /// The decimal form of the current index is looked up in the
    /// shortcuts sub-tree. If it is absent (or the sequence already
    /// ended), the sequence has terminated permanently and nothing is
    /// yielded. If it holds an object, that node is projected with the
    /// index as the record's id; a projection failure is surfaced as an
    /// error on this element and ends the sequence, without touching
    /// elements already yielded. An element that is not an object is the
    /// same kind of terminating error.
    pub fn next(&mut self) -> (r: Option<Result<Shortcut, ProjectError>>)
        ensures
            final(self).shortcuts() == old(self).shortcuts(),
            final(self).source_name() == old(self).source_name(),
            ({
                let k = decimal_chars(old(self).index() as nat);
                let m = old(self).shortcuts();
                if old(self).exhausted() || !m.contains_key(k) {
                    &&& r is None
                    &&& final(self).index() == old(self).index()
                    &&& final(self).exhausted() == old(self).exhausted()
                } else if !(m[k] is Object) {
                    &&& r is Some
                    &&& r->Some_0 is Err
                    &&& r->Some_0->Err_0 == ProjectError::NotAnObject
                    &&& final(self).exhausted()
                } else {
                    match spec_project(m[k]->Object_0, old(self).index()) {
                        Ok(sv) => {
                            &&& r is Some
                            &&& r->Some_0 is Ok
                            &&& r->Some_0->Ok_0@ == sv
                            &&& if old(self).index() < u32::MAX {
                                final(self).index() == old(self).index() + 1
                                    && !final(self).exhausted()
                            } else {
                                final(self).exhausted()
                            }
                        },
                        Err(e) => {
                            &&& r is Some
                            &&& r->Some_0 is Err
                            &&& r->Some_0->Err_0 == e
                            &&& final(self).exhausted()
                        },
                    }
                }
            }),
    {
        if self.done {
            return None;
        }
        let key = index_key(self.idx);
        let node = match self.parsed_map.get(&key) {
            None => { return None },
            Some(v) => v,
        };
        match node {
            Value::Object(m) => {
                match Shortcut::project(m, self.idx) {
                    Ok(record) => {
                        if self.idx < u32::MAX {
                            self.idx = self.idx + 1;
                        } else {
                            self.done = true;
                        }
                        Some(Ok(record))
                    },
                    Err(e) => {
                        self.done = true;
                        Some(Err(e))
                    },
                }
            },
            _ => {
                self.done = true;
                Some(Err(ProjectError::NotAnObject))
            },
        }
    }
}

} // verus!
