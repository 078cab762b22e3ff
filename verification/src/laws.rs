use crate::decode::{find_nul, lemma_find_nul_bounds, lemma_find_nul_prefix,
    lemma_parse_object_bounds, spec_parse_object, spec_read_cstring, step_pos, ObjParse,
    TAG_END, TAG_INT, TAG_OBJECT, TAG_TEXT};
use crate::shortcut::spec_project;
use crate::tree::ValueView;
use vstd::prelude::*;
use vstd::utf8::{decode_utf8, valid_utf8};

verus! {

/// Decoding is deterministic: the parsed tree is a function of the input
/// bytes alone, so two decodes of equal byte sequences describe
/// structurally identical trees.
pub proof fn lemma_decode_deterministic(b1: Seq<u8>, b2: Seq<u8>)
    requires
        b1 == b2,
    ensures
        spec_parse_object(b1, 0, Map::empty()) == spec_parse_object(b2, 0, Map::empty()),
{
}

/// An object parse that ended at an explicit terminator tag consumed
/// nothing beyond that tag: the same parse on the bytes extended with any
/// suffix returns the same map and stops at the same position.
pub proof fn lemma_terminator_stops_consumption(
    s: Seq<u8>,
    ext: Seq<u8>,
    pos: int,
    acc: Map<Seq<char>, ValueView>,
)
    requires
        0 <= pos <= s.len(),
        spec_parse_object(s, pos, acc) matches ObjParse::Done { terminated: true, .. },
    ensures
        spec_parse_object(s + ext, pos, acc) == spec_parse_object(s, pos, acc),
    decreases s.len() - pos,
{
    let t = s + ext;
    assert(pos < s.len());
    assert(t[pos] == s[pos]);
    if s[pos] == TAG_END {
        // both parses return the accumulated map at pos + 1
    } else {
        let tag = s[pos];
        lemma_find_nul_bounds(s, pos + 1);
        let nul = find_nul(s, pos + 1);
        let kr = spec_read_cstring(s, pos + 1);
        if nul == s.len() {
            // The key has no terminator, so every way to continue reaches
            // the end of the input and the scope cannot have ended at a
            // terminator tag: contradiction with the precondition.
            assert(kr.next == s.len());
            let kn = step_pos(s, pos, kr.next);
            assert(kn == s.len());
            let end: int = s.len() as int;
            if valid_utf8(kr.bytes) {
                let key = decode_utf8(kr.bytes);
                if tag == TAG_OBJECT {
                    let sub_res = spec_parse_object(s, kn, Map::empty());
                    assert(sub_res == ObjParse::Done {
                        map: Map::<Seq<char>, ValueView>::empty(),
                        end,
                        terminated: false,
                    });
                    assert(step_pos(s, pos, end) == s.len());
                    assert(spec_parse_object(
                        s,
                        end,
                        acc.insert(key, ValueView::Object(Map::empty())),
                    ) matches ObjParse::Done { terminated: false, .. });
                    assert(false);
                } else if tag == TAG_TEXT {
                    let vr = spec_read_cstring(s, kn);
                    assert(find_nul(s, kn) == s.len());
                    assert(vr.next == s.len());
                    if valid_utf8(vr.bytes) {
                        assert(step_pos(s, pos, vr.next) == s.len());
                        assert(spec_parse_object(
                            s,
                            end,
                            acc.insert(key, ValueView::Text(decode_utf8(vr.bytes))),
                        ) matches ObjParse::Done { terminated: false, .. });
                    }
                    assert(false);
                } else if tag == TAG_INT {
                    assert(kn + 4 > s.len());
                    assert(false);
                } else {
                    assert(spec_parse_object(s, kn, acc) matches ObjParse::Done {
                        terminated: false,
                        ..
                    });
                    assert(false);
                }
            } else {
                assert(false);
            }
        } else {
            lemma_find_nul_prefix(s, ext, pos + 1);
            let kr_t = spec_read_cstring(t, pos + 1);
            assert(kr_t.next == kr.next);
            assert(kr_t.bytes =~= kr.bytes);
            if !valid_utf8(kr.bytes) {
                assert(false);
            }
            let key = decode_utf8(kr.bytes);
            let kn = step_pos(s, pos, kr.next);
            assert(step_pos(t, pos, kr_t.next) == kn);
            assert(pos + 1 <= kn <= s.len());
            if tag == TAG_OBJECT {
                match spec_parse_object(s, kn, Map::empty()) {
                    ObjParse::Failed { .. } => {
                        assert(false);
                    },
                    ObjParse::Done { map: sub, end, terminated: tn } => {
                        lemma_parse_object_bounds(s, kn, Map::empty());
                        if !tn {
                            // the nested scope ran to the end of the
                            // input, so the outer one did too
                            assert(step_pos(s, pos, end) == s.len());
                            assert(spec_parse_object(
                                s,
                                s.len() as int,
                                acc.insert(key, ValueView::Object(sub)),
                            ) matches ObjParse::Done { terminated: false, .. });
                            assert(false);
                        } else {
                            lemma_terminator_stops_consumption(s, ext, kn, Map::empty());
                            let cont = step_pos(s, pos, end);
                            assert(cont == end);
                            assert(step_pos(t, pos, end) == end);
                            lemma_terminator_stops_consumption(
                                s,
                                ext,
                                end,
                                acc.insert(key, ValueView::Object(sub)),
                            );
                        }
                    },
                }
            } else if tag == TAG_TEXT {
                lemma_find_nul_bounds(s, kn);
                let vnul = find_nul(s, kn);
                let vr = spec_read_cstring(s, kn);
                if vnul == s.len() {
                    // no text terminator: as with the key, contradiction
                    assert(vr.next == s.len());
                    if valid_utf8(vr.bytes) {
                        assert(step_pos(s, pos, vr.next) == s.len());
                        assert(spec_parse_object(
                            s,
                            s.len() as int,
                            acc.insert(key, ValueView::Text(decode_utf8(vr.bytes))),
                        ) matches ObjParse::Done { terminated: false, .. });
                    }
                    assert(false);
                } else {
                    lemma_find_nul_prefix(s, ext, kn);
                    let vr_t = spec_read_cstring(t, kn);
                    assert(vr_t.next == vr.next);
                    assert(vr_t.bytes =~= vr.bytes);
                    if !valid_utf8(vr.bytes) {
                        assert(false);
                    }
                    assert(step_pos(t, pos, vr.next) == step_pos(s, pos, vr.next));
                    lemma_terminator_stops_consumption(
                        s,
                        ext,
                        step_pos(s, pos, vr.next),
                        acc.insert(key, ValueView::Text(decode_utf8(vr.bytes))),
                    );
                }
            } else if tag == TAG_INT {
                if kn + 4 > s.len() {
                    assert(false);
                } else {
                    assert(t[kn] == s[kn] && t[kn + 1] == s[kn + 1] && t[kn + 2] == s[kn + 2]
                        && t[kn + 3] == s[kn + 3]);
                    lemma_terminator_stops_consumption(
                        s,
                        ext,
                        kn + 4,
                        acc.insert(
                            key,
                            ValueView::Int(
                                crate::decode::le_u32(s[kn], s[kn + 1], s[kn + 2], s[kn + 3]),
                            ),
                        ),
                    );
                }
            } else {
                lemma_terminator_stops_consumption(s, ext, kn, acc);
            }
        }
    }
}

/// Boolean coercion: in a successfully projected record, each
/// integer-coded boolean field is true exactly when the stored integer
/// equals 1 — zero and every other nonzero value give false.
pub proof fn lemma_boolean_coercion(m: Map<Seq<char>, ValueView>, id: u32)
    requires
        spec_project(m, id) is Ok,
    ensures
        spec_project(m, id)->Ok_0.is_hidden <==> m["IsHidden"@] == ValueView::Int(1u32),
        spec_project(m, id)->Ok_0.allow_desktop_config <==> m["AllowDesktopConfig"@]
            == ValueView::Int(1u32),
        spec_project(m, id)->Ok_0.open_vr <==> m["OpenVR"@] == ValueView::Int(1u32),
{
}

/// Duplicate keys: of two writes to the same key, only the later value is
/// retained — which is how the decoder accumulates an object's entries.
pub proof fn lemma_duplicate_key_overwrite(
    m: Map<Seq<char>, ValueView>,
    k: Seq<char>,
    v1: ValueView,
    v2: ValueView,
)
    ensures
        m.insert(k, v1).insert(k, v2) == m.insert(k, v2),
{
    assert(m.insert(k, v1).insert(k, v2) =~= m.insert(k, v2));
}

/// An entry whose tag byte is not assigned a meaning is dropped whole:
/// the parse consumes its tag and key, keeps the entries read so far
/// unchanged, and continues, so the entry's neighbours are unaffected.
pub proof fn lemma_unrecognized_tag_skipped(s: Seq<u8>, pos: int, acc: Map<Seq<char>, ValueView>)
    requires
        0 <= pos < s.len(),
        s[pos] != TAG_OBJECT && s[pos] != TAG_TEXT && s[pos] != TAG_INT && s[pos] != TAG_END,
        valid_utf8(spec_read_cstring(s, pos + 1).bytes),
    ensures
        spec_parse_object(s, pos, acc) == spec_parse_object(
            s,
            step_pos(s, pos, spec_read_cstring(s, pos + 1).next),
            acc,
        ),
{
}

} // verus!
