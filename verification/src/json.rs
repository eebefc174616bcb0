//! The key/value document model: the parsed form of an environment file,
//! lookup of (possibly dotted) key paths, and the textual form of scalar
//! values.

use vstd::prelude::*;
use crate::text::{find_char, find_char_in, lemma_find_char, push_char, str_eq_range};
use vstd::string::StringExecFns;

verus! {

/// A structured key/value document. Numbers keep the textual representation
/// that the parser prints for them, so substitution inserts exactly that
/// text.
#[derive(Debug, PartialEq, Eq)]
pub enum JsonValue {
    Null,
    Bool(bool),
    Num(String),
    Str(String),
    Arr(Vec<JsonValue>),
    Obj(Vec<(String, JsonValue)>),
}

/// Is the value a scalar, one a placeholder may resolve to?
pub open spec fn is_scalar(v: JsonValue) -> bool {
    match v {
        JsonValue::Arr(_) => false,
        JsonValue::Obj(_) => false,
        _ => true,
    }
}

/// The text a scalar substitutes into the resolved request.
pub open spec fn scalar_text(v: JsonValue) -> Seq<char> {
    match v {
        JsonValue::Null => seq!['n', 'u', 'l', 'l'],
        JsonValue::Bool(b) => if b {
            seq!['t', 'r', 'u', 'e']
        } else {
            seq!['f', 'a', 'l', 's', 'e']
        },
        JsonValue::Num(s) => s@,
        JsonValue::Str(s) => s@,
        JsonValue::Arr(_) => Seq::empty(),
        JsonValue::Obj(_) => Seq::empty(),
    }
}

/// Look up a key among an object's entries; the first matching entry wins.
pub open spec fn obj_get(entries: Seq<(String, JsonValue)>, key: Seq<char>) -> Option<JsonValue>
    decreases entries.len(),
{
    if entries.len() == 0 {
        None
    } else if entries[0].0@ == key {
        Some(entries[0].1)
    } else {
        obj_get(entries.drop_first(), key)
    }
}

/// `obj_get` yields the value of the first entry whose key matches.
pub proof fn lemma_obj_get_at(entries: Seq<(String, JsonValue)>, key: Seq<char>, i: int)
    requires
        0 <= i < entries.len(),
        entries[i].0@ == key,
        forall|j: int| 0 <= j < i ==> entries[j].0@ != key,
    ensures
        obj_get(entries, key) == Some(entries[i].1),
    decreases i,
{
    if i > 0 {
        lemma_obj_get_at(entries.drop_first(), key, i - 1);
    }
}

/// `obj_get` yields nothing when no entry's key matches.
pub proof fn lemma_obj_get_none(entries: Seq<(String, JsonValue)>, key: Seq<char>)
    requires
        forall|j: int| 0 <= j < entries.len() ==> entries[j].0@ != key,
    ensures
        obj_get(entries, key) is None,
    decreases entries.len(),
{
    if entries.len() > 0 {
        lemma_obj_get_none(entries.drop_first(), key);
    }
}

/// Split a key path at `.` separators into its segments. A path without a
/// separator is one segment; the list is never empty.
pub open spec fn path_segments(path: Seq<char>) -> Seq<Seq<char>>
    decreases path.len(),
    via path_segments_decreases
{
    match find_char(path, '.', 0) {
        Some(d) => seq![path.take(d)] + path_segments(path.skip(d + 1)),
        None => seq![path],
    }
}

#[via_fn]
proof fn path_segments_decreases(path: Seq<char>) {
    lemma_find_char(path, '.', 0);
}

/// Follow a key path through a document, one object level per segment.
pub open spec fn lookup_segs(v: JsonValue, segs: Seq<Seq<char>>) -> Option<JsonValue>
    decreases segs.len(),
{
    if segs.len() == 0 {
        Some(v)
    } else {
        match v {
            JsonValue::Obj(es) => match obj_get(es@, segs[0]) {
                Some(child) => lookup_segs(child, segs.drop_first()),
                None => None,
            },
            _ => None,
        }
    }
}

/// Resolve a (possibly dotted) placeholder key against a document.
pub open spec fn lookup_path(v: JsonValue, path: Seq<char>) -> Option<JsonValue> {
    lookup_segs(v, path_segments(path))
}

/// What parsing a text as a JSON document yields: `Some` of the document's
/// model when the text is well-formed, `None` otherwise. The result is a
/// function of the text alone.
pub uninterp spec fn json_of(s: Seq<char>) -> Option<JsonValue>;

#[verifier::external_type_specification]
#[verifier::external_body]
pub struct ExValue(serde_json::Value);

/// Relies on `serde_json::Value`: rebuilds a parsed document as this
/// library's own model, variant by variant. Numbers keep the textual form
/// `serde_json` prints for them; object entries come out in the map's own
/// (sorted) key order.
#[verifier::external_body]
fn value_model(v: &serde_json::Value) -> JsonValue {
    match v {
        serde_json::Value::Null => JsonValue::Null,
        serde_json::Value::Bool(b) => JsonValue::Bool(*b),
        serde_json::Value::Number(n) => JsonValue::Num(n.to_string()),
        serde_json::Value::String(s) => JsonValue::Str(s.clone()),
        serde_json::Value::Array(a) => JsonValue::Arr(a.iter().map(value_model).collect()),
        serde_json::Value::Object(m) => JsonValue::Obj(
            m.iter().map(|(k, x)| (k.clone(), value_model(x))).collect(),
        ),
    }
}

/// Relies on `serde_json::from_str`: parses the text as one JSON document,
/// or reports the syntax error's message. With this crate's default
/// features the outcome is a pure function of the text (objects are kept
/// as sorted maps), which `json_of` names.
#[verifier::external_body]
pub(crate) fn parse_json(s: &str) -> (r: Result<JsonValue, String>)
    ensures
        r matches Ok(v) ==> json_of(s@) == Some(v),
        r is Err ==> json_of(s@) is None,
{
    match serde_json::from_str::<serde_json::Value>(s) {
        Ok(v) => Ok(value_model(&v)),
        Err(e) => Err(e.to_string()),
    }
}

/// Report whether the value is a scalar.
pub fn scalar_check(v: &JsonValue) -> (r: bool)
    ensures
        r == is_scalar(*v),
{
    match v {
        JsonValue::Arr(_) => false,
        JsonValue::Obj(_) => false,
        _ => true,
    }
}

/// Append the textual form of a scalar value to `out`.
pub fn append_scalar(out: &mut String, v: &JsonValue)
    requires
        is_scalar(*v),
    ensures
        final(out)@ == old(out)@ + scalar_text(*v),
{
    match v {
        JsonValue::Null => {
            push_char(out, 'n');
            push_char(out, 'u');
            push_char(out, 'l');
            push_char(out, 'l');
            proof {
                assert(out@ =~= old(out)@ + scalar_text(*v));
            }
        },
        JsonValue::Bool(b) => {
            if *b {
                push_char(out, 't');
                push_char(out, 'r');
                push_char(out, 'u');
                push_char(out, 'e');
            } else {
                push_char(out, 'f');
                push_char(out, 'a');
                push_char(out, 'l');
                push_char(out, 's');
                push_char(out, 'e');
            }
            proof {
                assert(out@ =~= old(out)@ + scalar_text(*v));
            }
        },
        JsonValue::Num(s) => {
            out.append(s.as_str());
        },
        JsonValue::Str(s) => {
            out.append(s.as_str());
        },
        JsonValue::Arr(_) => {
        },
        JsonValue::Obj(_) => {
        },
    }
}

/// Look up the key path held in `key[from..to]` within `v`.
#[verifier::loop_isolation(false)]
pub fn lookup_in<'a>(v: &'a JsonValue, key: &Vec<char>, from: usize, to: usize) -> (r: Option<
    &'a JsonValue,
>)
    requires
        from <= to <= key@.len(),
    ensures
        match r {
            Some(c) => lookup_path(*v, key@.subrange(from as int, to as int)) == Some(*c),
            None => lookup_path(*v, key@.subrange(from as int, to as int)) is None,
        },
    decreases to - from,
{
    let ghost sub = key@.subrange(from as int, to as int);
    proof {
        lemma_find_char(sub, '.', 0);
    }
    let dot = find_char_in(key, '.', from, to);
    let segend: usize = match dot {
        Some(j) => j,
        None => to,
    };
    proof {
        match dot {
            Some(j) => {
                assert(sub[j - from] == key@[j as int]);
                assert(forall|k: int| 0 <= k < j - from ==> sub[k] == key@[from + k]);
                assert(find_char(sub, '.', 0) == Some(j - from as int)) by {
                    match find_char(sub, '.', 0) {
                        Some(d) => {
                            if d < j - from {
                                assert(key@[from + d] == '.');
                            }
                            if d > j - from {
                                assert(sub[j - from] != '.');
                            }
                        },
                        None => {
                            assert(sub[j - from] != '.');
                        },
                    }
                }
                assert(path_segments(sub) == seq![sub.take(j - from)] + path_segments(
                    sub.skip(j - from + 1),
                ));
                assert(sub.take(j - from) =~= key@.subrange(from as int, j as int));
                assert(sub.skip(j - from + 1) =~= key@.subrange(j + 1, to as int));
            },
            None => {
                assert(forall|k: int| 0 <= k < sub.len() ==> sub[k] == key@[from + k]);
                assert(find_char(sub, '.', 0) is None) by {
                    match find_char(sub, '.', 0) {
                        Some(d) => {
                            assert(key@[from + d] == '.');
                        },
                        None => {},
                    }
                }
                assert(path_segments(sub) == seq![sub]);
                assert(sub =~= key@.subrange(from as int, to as int));
            },
        }
    }
    let ghost segs = path_segments(sub);
    let ghost seg = key@.subrange(from as int, segend as int);
    proof {
        assert(segs.len() >= 1);
        assert(segs[0] == seg);
    }
    match v {
        JsonValue::Obj(es) => {
            let n = es.len();
            let mut i: usize = 0;
            while i < n
                invariant
                    n == es@.len(),
                    from <= segend <= to <= key@.len(),
                    i <= n,
                    forall|k: int| 0 <= k < i ==> es@[k].0@ != seg,
                decreases n - i,
            {
                if str_eq_range(&es[i].0, key, from, segend) {
                    proof {
                        lemma_obj_get_at(es@, seg, i as int);
                    }
                    let child = &es[i].1;
                    proof {
                        assert(*v == JsonValue::Obj(*es));
                        assert(obj_get(es@, segs[0]) == Some(es@[i as int].1));
                        assert(lookup_segs(*v, segs) == lookup_segs(
                            es@[i as int].1,
                            segs.drop_first(),
                        ));
                    }
                    match dot {
                        Some(j) => {
                            proof {
                                assert(segs.drop_first() =~= path_segments(
                                    key@.subrange(j + 1, to as int),
                                ));
                            }
                            return lookup_in(child, key, j + 1, to);
                        },
                        None => {
                            proof {
                                assert(segs.drop_first() =~= Seq::<Seq<char>>::empty());
                                assert(lookup_segs(*child, segs.drop_first()) == Some(*child));
                            }
                            return Some(child);
                        },
                    }
                }
                i = i + 1;
            }
            proof {
                lemma_obj_get_none(es@, seg);
            }
            None
        },
        _ => {
            None
        },
    }
}

} // verus!
