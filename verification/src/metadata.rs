//! DID metadata values and option handling: the string-or-structure metadata
//! type, the `name=value` property syntax, and the folding of repeated option
//! names into arrays.

use vstd::prelude::*;
use vstd::string::StrSliceExecFns;

use crate::json::{
    jval, jval_fields, key_lt, lemma_jval_fields_index, lemma_jval_fields_len,
    lemma_key_trichotomy, str_eq_chars, wf_jval, JsonVal, JsonValue,
};

verus! {

/// A metadata value: a string, a map of properties, a list, a boolean, or
/// null.
pub enum Metadata {
    Text(String),
    Object(Vec<(String, Metadata)>),
    List(Vec<Metadata>),
    Boolean(bool),
    Null,
}

/// The JSON form of a metadata value.
pub open spec fn mval(m: Metadata) -> JsonVal
    decreases m, 0int,
{
    match m {
        Metadata::Text(s) => JsonVal::Text(s@),
        Metadata::Object(fs) => JsonVal::Object(mval_fields(fs@)),
        Metadata::List(es) => JsonVal::Array(mval_seq(es@)),
        Metadata::Boolean(b) => JsonVal::Bool(b),
        Metadata::Null => JsonVal::Null,
    }
}

/// The JSON forms of a sequence of metadata values.
pub open spec fn mval_seq(es: Seq<Metadata>) -> Seq<JsonVal>
    decreases es, 1int,
{
    if es.len() == 0 {
        Seq::empty()
    } else {
        seq![mval(es[0])] + mval_seq(es.drop_first())
    }
}

/// The JSON forms of a sequence of metadata members.
pub open spec fn mval_fields(fs: Seq<(String, Metadata)>) -> Seq<(Seq<char>, JsonVal)>
    decreases fs, 1int,
{
    if fs.len() == 0 {
        Seq::empty()
    } else {
        seq![(fs[0].0@, mval(fs[0].1))] + mval_fields(fs.drop_first())
    }
}

/// The abstraction of a metadata sequence abstracts each element in place.
proof fn lemma_mval_seq_index(es: Seq<Metadata>, i: int)
    requires
        0 <= i < es.len(),
    ensures
        mval_seq(es).len() == es.len(),
        mval_seq(es)[i] == mval(es[i]),
    decreases es.len(),
{
    if i > 0 {
        lemma_mval_seq_index(es.drop_first(), i - 1);
    }
    lemma_mval_seq_len(es);
}

/// The abstraction of a metadata sequence preserves its length.
proof fn lemma_mval_seq_len(es: Seq<Metadata>)
    ensures
        mval_seq(es).len() == es.len(),
    decreases es.len(),
{
    if es.len() > 0 {
        lemma_mval_seq_len(es.drop_first());
    }
}

/// The abstraction of a member sequence abstracts each member in place.
proof fn lemma_mval_fields_index(fs: Seq<(String, Metadata)>, i: int)
    requires
        0 <= i < fs.len(),
    ensures
        mval_fields(fs).len() == fs.len(),
        mval_fields(fs)[i] == (fs[i].0@, mval(fs[i].1)),
    decreases fs.len(),
{
    if i > 0 {
        lemma_mval_fields_index(fs.drop_first(), i - 1);
    }
    lemma_mval_fields_len(fs);
}

/// The abstraction of a member sequence preserves its length.
proof fn lemma_mval_fields_len(fs: Seq<(String, Metadata)>)
    ensures
        mval_fields(fs).len() == fs.len(),
    decreases fs.len(),
{
    if fs.len() > 0 {
        lemma_mval_fields_len(fs.drop_first());
    }
}

/// Converts a metadata value to its JSON form.
#[verifier::loop_isolation(false)]
pub fn metadata_to_json(m: &Metadata) -> (r: JsonValue)
    ensures
        jval(r) == mval(*m),
    decreases *m,
{
    match m {
        Metadata::Text(s) => JsonValue::Text(s.clone()),
        Metadata::Boolean(b) => JsonValue::Bool(*b),
        Metadata::Null => JsonValue::Null,
        Metadata::List(es) => {
            let mut out: Vec<JsonValue> = Vec::new();
            let mut i: usize = 0;
            while i < es.len()
                invariant
                    i <= es.len(),
                    out@.len() == i,
                    forall|j: int| 0 <= j < i ==> jval(#[trigger] out@[j]) == mval_seq(es@)[j],
                decreases es.len() - i,
            {
                proof {
                    lemma_mval_seq_index(es@, i as int);
                }
                out.push(metadata_to_json(&es[i]));
                i += 1;
            }
            let r = JsonValue::Array(out);
            proof {
                lemma_mval_seq_len(es@);
                crate::json::lemma_jval_seq_len(out@);
                assert forall|j: int| 0 <= j < out@.len() implies #[trigger] crate::json::jval_seq(
                    out@,
                )[j] == mval_seq(es@)[j] by {
                    crate::json::lemma_jval_seq_index(out@, j);
                }
                assert(crate::json::jval_seq(out@) =~= mval_seq(es@));
            }
            r
        },
        Metadata::Object(fs) => {
            let mut out: Vec<(String, JsonValue)> = Vec::new();
            let mut i: usize = 0;
            while i < fs.len()
                invariant
                    i <= fs.len(),
                    out@.len() == i,
                    forall|j: int|
                        0 <= j < i ==> (#[trigger] out@[j]).0@ == fs@[j].0@ && jval(out@[j].1)
                            == mval(fs@[j].1),
                decreases fs.len() - i,
            {
                proof {
                    lemma_mval_fields_index(fs@, i as int);
                }
                out.push((fs[i].0.clone(), metadata_to_json(&fs[i].1)));
                i += 1;
            }
            let r = JsonValue::Object(out);
            proof {
                lemma_mval_fields_len(fs@);
                lemma_jval_fields_len(out@);
                assert forall|j: int| 0 <= j < out@.len() implies #[trigger] jval_fields(out@)[j]
                    == mval_fields(fs@)[j] by {
                    lemma_jval_fields_index(out@, j);
                    lemma_mval_fields_index(fs@, j);
                }
                assert(jval_fields(out@) =~= mval_fields(fs@));
            }
            r
        },
    }
}

/// A metadata property of the `name=value` option syntax: a string property
/// name with a string value, or a bare name standing for a true flag.
pub struct MetadataProperty {
    pub name: String,
    pub value: Metadata,
}

/// The position of the first `=` in a character sequence, or its length.
pub open spec fn first_eq(cs: Seq<char>) -> int
    decreases cs.len(),
{
    if cs.len() == 0 {
        0
    } else if cs[0] == '=' {
        0
    } else {
        1 + first_eq(cs.drop_first())
    }
}

/// A position with no `=` before it and an `=` (or the end) at it is the
/// first `=`.
proof fn lemma_first_eq_at(cs: Seq<char>, k: int)
    requires
        0 <= k <= cs.len(),
        forall|j: int| 0 <= j < k ==> cs[j] != '=',
        k < cs.len() ==> cs[k] == '=',
    ensures
        first_eq(cs) == k,
    decreases k,
{
    if k > 0 {
        lemma_first_eq_at(cs.drop_first(), k - 1);
    } else {
        if cs.len() > 0 && cs[0] != '=' {
            assert(false);
        }
    }
}

impl MetadataProperty {
    /// Reads a property from the option syntax: everything before the first
    /// `=` is the name and everything after it is a string value; without an
    /// `=` the whole text is the name of a true flag.
    #[verifier::loop_isolation(false)]
    pub fn parse(s: &str) -> (r: MetadataProperty)
        ensures
            r.name@ == s@.take(first_eq(s@)),
            first_eq(s@) == s@.len() ==> (r.value matches Metadata::Boolean(b) && b == true),
            first_eq(s@) < s@.len() ==> (r.value matches Metadata::Text(v) && v@ == s@.subrange(
                first_eq(s@) + 1,
                s@.len() as int,
            )),
    {
        let n = s.unicode_len();
        let mut i: usize = 0;
        while i < n && s.get_char(i) != '='
            invariant
                i <= n == s@.len(),
                forall|j: int| 0 <= j < i ==> s@[j] != '=',
            decreases n - i,
        {
            i += 1;
        }
        proof {
            lemma_first_eq_at(s@, i as int);
        }
        if i < n {
            let name = s.substring_char(0, i).to_owned();
            let value = s.substring_char(i + 1, n).to_owned();
            MetadataProperty { name, value: Metadata::Text(value) }
        } else {
            let name = s.to_owned();
            proof {
                assert(s@.take(first_eq(s@)) =~= s@);
            }
            MetadataProperty { name, value: Metadata::Boolean(true) }
        }
    }
}

/// How a repeated option name folds its values together: the first two merge
/// into a two-element array, further repeats append, and a null placeholder
/// is simply replaced.
pub open spec fn merged(old_v: JsonVal, new_v: JsonVal) -> JsonVal {
    match old_v {
        JsonVal::Null => new_v,
        JsonVal::Array(es) => JsonVal::Array(es.push(new_v)),
        _ => JsonVal::Array(seq![old_v, new_v]),
    }
}

/// Inserting one named value into an option object ordered by name: an equal
/// name merges, a smaller name lands before, a larger one recurses.
pub open spec fn opt_insert(
    acc: Seq<(Seq<char>, JsonVal)>,
    n: Seq<char>,
    v: JsonVal,
) -> Seq<(Seq<char>, JsonVal)>
    decreases acc.len(),
{
    if acc.len() == 0 {
        seq![(n, v)]
    } else if acc[0].0 == n {
        seq![(n, merged(acc[0].1, v))] + acc.drop_first()
    } else if key_lt(n, acc[0].0) {
        seq![(n, v)] + acc
    } else {
        seq![acc[0]] + opt_insert(acc.drop_first(), n, v)
    }
}

/// The option object of a property list: each property inserted in order.
pub open spec fn fold_options(props: Seq<(Seq<char>, JsonVal)>) -> Seq<(Seq<char>, JsonVal)>
    decreases props.len(),
{
    if props.len() == 0 {
        Seq::empty()
    } else {
        opt_insert(fold_options(props.drop_last()), props.last().0, props.last().1)
    }
}

/// The name/value pairs of a property list, in JSON form.
pub open spec fn props_jvals(ps: Seq<MetadataProperty>) -> Seq<(Seq<char>, JsonVal)> {
    ps.map_values(|p: MetadataProperty| (p.name@, mval(p.value)))
}

/// Folding one value into a well-formed option object keeps it well formed,
/// and introduces no name besides the inserted one.
proof fn lemma_opt_insert_wf(acc: Seq<(Seq<char>, JsonVal)>, n: Seq<char>, v: JsonVal)
    requires
        wf_jval(JsonVal::Object(acc)),
        wf_jval(v),
    ensures
        wf_jval(JsonVal::Object(opt_insert(acc, n, v))),
        forall|idx: int|
            0 <= idx < opt_insert(acc, n, v).len() ==> (#[trigger] opt_insert(acc, n, v)[idx]).0
                == n || (exists|j: int| 0 <= j < acc.len() && (#[trigger] acc[j]).0 == opt_insert(
                acc,
                n,
                v,
            )[idx].0),
    decreases acc.len(),
{
    let out = opt_insert(acc, n, v);
    if acc.len() == 0 {
        assert forall|a: int| 0 <= a < out.len() implies wf_jval(#[trigger] out[a].1) by {
            assert(out[a].1 == v);
        }
        assert forall|a: int| 0 <= a < out.len() - 1 implies key_lt(
            #[trigger] out[a].0,
            out[a + 1].0,
        ) by {}
        crate::json::lemma_obj_wf(out);
    } else if acc[0].0 == n {
        crate::json::lemma_obj_wf_member(acc, 0);
        assert(wf_jval(merged(acc[0].1, v))) by {
            match acc[0].1 {
                JsonVal::Array(es) => {
                    assert forall|j: int| 0 <= j < es.push(v).len() implies wf_jval(
                        #[trigger] es.push(v)[j],
                    ) by {
                        if j < es.len() {
                            crate::json::lemma_arr_wf_element(es, j);
                        }
                    }
                },
                _ => {},
            }
        }
        assert forall|a: int| 0 <= a < out.len() implies wf_jval(#[trigger] out[a].1) by {
            if a > 0 {
                assert(out[a] == acc[a]);
                crate::json::lemma_obj_wf_member(acc, a);
            }
        }
        assert forall|a: int| 0 <= a < out.len() - 1 implies key_lt(
            #[trigger] out[a].0,
            out[a + 1].0,
        ) by {
            assert(out[a].0 == acc[a].0);
            assert(out[a + 1].0 == acc[a + 1].0);
            crate::json::lemma_obj_wf_key_lt(acc, a, a + 1);
        }
        crate::json::lemma_obj_wf(out);
        assert forall|idx: int| 0 <= idx < out.len() implies (#[trigger] out[idx]).0 == n || (
        exists|j: int| 0 <= j < acc.len() && (#[trigger] acc[j]).0 == out[idx].0) by {
            if idx > 0 {
                assert(acc[idx].0 == out[idx].0);
            }
        }
    } else if key_lt(n, acc[0].0) {
        assert forall|a: int| 0 <= a < out.len() implies wf_jval(#[trigger] out[a].1) by {
            if a > 0 {
                assert(out[a] == acc[a - 1]);
                crate::json::lemma_obj_wf_member(acc, a - 1);
            } else {
                assert(out[0].1 == v);
            }
        }
        assert forall|a: int| 0 <= a < out.len() - 1 implies key_lt(
            #[trigger] out[a].0,
            out[a + 1].0,
        ) by {
            if a == 0 {
                assert(out[0].0 == n && out[1].0 == acc[0].0);
            } else {
                assert(out[a].0 == acc[a - 1].0);
                assert(out[a + 1].0 == acc[a].0);
                crate::json::lemma_obj_wf_key_lt(acc, a - 1, a);
            }
        }
        crate::json::lemma_obj_wf(out);
        assert forall|idx: int| 0 <= idx < out.len() implies (#[trigger] out[idx]).0 == n || (
        exists|j: int| 0 <= j < acc.len() && (#[trigger] acc[j]).0 == out[idx].0) by {
            if idx > 0 {
                assert(acc[idx - 1].0 == out[idx].0);
            }
        }
    } else {
        let tail = acc.drop_first();
        assert(wf_jval(JsonVal::Object(tail))) by {
            assert forall|a: int| 0 <= a < tail.len() implies wf_jval(#[trigger] tail[a].1) by {
                assert(tail[a] == acc[a + 1]);
                crate::json::lemma_obj_wf_member(acc, a + 1);
            }
            assert forall|a: int| 0 <= a < tail.len() - 1 implies key_lt(
                #[trigger] tail[a].0,
                tail[a + 1].0,
            ) by {
                assert(tail[a] == acc[a + 1]);
                assert(tail[a + 1] == acc[a + 2]);
                crate::json::lemma_obj_wf_key_lt(acc, a + 1, a + 2);
            }
            crate::json::lemma_obj_wf(tail);
        }
        lemma_opt_insert_wf(tail, n, v);
        let ins = opt_insert(tail, n, v);
        lemma_key_trichotomy(n, acc[0].0);
        assert(key_lt(acc[0].0, n));
        assert forall|a: int| 0 <= a < out.len() implies wf_jval(#[trigger] out[a].1) by {
            if a == 0 {
                crate::json::lemma_obj_wf_member(acc, 0);
            } else {
                assert(out[a] == ins[a - 1]);
                crate::json::lemma_obj_wf_member(ins, a - 1);
            }
        }
        assert forall|a: int| 0 <= a < out.len() - 1 implies key_lt(
            #[trigger] out[a].0,
            out[a + 1].0,
        ) by {
            if a == 0 {
                assert(out[1].0 == ins[0].0);
                if ins[0].0 == n {
                    assert(key_lt(acc[0].0, n));
                } else {
                    let j = choose|j: int|
                        0 <= j < tail.len() && (#[trigger] tail[j]).0 == ins[0].0;
                    assert(tail[j] == acc[j + 1]);
                    crate::json::lemma_obj_wf_key_lt(acc, 0, j + 1);
                }
            } else {
                assert(out[a] == ins[a - 1]);
                assert(out[a + 1] == ins[a]);
                crate::json::lemma_obj_wf_key_lt(ins, a - 1, a);
            }
        }
        crate::json::lemma_obj_wf(out);
        assert forall|idx: int| 0 <= idx < out.len() implies (#[trigger] out[idx]).0 == n || (
        exists|j: int| 0 <= j < acc.len() && (#[trigger] acc[j]).0 == out[idx].0) by {
            if idx == 0 {
                assert(acc[0].0 == out[0].0);
            } else {
                assert(out[idx] == ins[idx - 1]);
                if ins[idx - 1].0 != n {
                    let j = choose|j: int|
                        0 <= j < tail.len() && (#[trigger] tail[j]).0 == ins[idx - 1].0;
                    assert(acc[j + 1].0 == out[idx].0);
                }
            }
        }
    }
}

/// Merges one value into the executable option object exactly as
/// [`opt_insert`] describes.
fn opt_insert_exec(acc: Vec<(String, JsonValue)>, name: &String, v: JsonValue) -> (r: Vec<
    (String, JsonValue),
>)
    ensures
        jval_fields(r@) == opt_insert(jval_fields(acc@), name@, jval(v)),
    decreases acc@.len(),
{
    let mut acc = acc;
    if acc.len() == 0 {
        let mut out: Vec<(String, JsonValue)> = Vec::new();
        out.push((name.clone(), v));
        proof {
            lemma_jval_fields_len(out@);
            lemma_jval_fields_index(out@, 0);
            assert(jval_fields(acc@) =~= Seq::<(Seq<char>, JsonVal)>::empty());
            assert(jval_fields(out@) =~= opt_insert(jval_fields(acc@), name@, jval(v)));
        }
        return out;
    }
    proof {
        lemma_jval_fields_index(acc@, 0);
    }
    if str_eq_chars(acc[0].0.as_str(), name.as_str()) {
        let ghost acc0 = acc@;
        let (k0, v0) = acc.remove(0);
        let m = merge_exec(v0, v);
        let ghost accrest = acc@;
        acc.insert(0, (k0, m));
        proof {
            assert(accrest =~= acc0.drop_first());
            assert(acc@ =~= seq![(k0, m)] + accrest);
            lemma_jval_fields_len(acc@);
            assert forall|j: int| 0 <= j < acc@.len() implies #[trigger] jval_fields(acc@)[j]
                == opt_insert(jval_fields(acc0), name@, jval(v))[j] by {
                lemma_jval_fields_index(acc@, j);
                if j > 0 {
                    lemma_jval_fields_index(accrest, j - 1);
                    lemma_jval_fields_index(acc0, j);
                }
            }
            lemma_jval_fields_len(acc0);
            assert(jval_fields(acc@) =~= opt_insert(jval_fields(acc0), name@, jval(v)));
        }
        acc
    } else {
        let name_bytes = name.as_str().as_bytes_vec();
        let first_bytes = acc[0].0.as_str().as_bytes_vec();
        if crate::parse::bytes_less(&name_bytes, &first_bytes) {
            let ghost acc0 = acc@;
            let entry = (name.clone(), v);
            let ghost ge = entry;
            acc.insert(0, entry);
            proof {
                assert(acc@ =~= seq![ge] + acc0);
                lemma_jval_fields_len(acc@);
                lemma_jval_fields_len(acc0);
                assert forall|j: int| 0 <= j < acc@.len() implies #[trigger] jval_fields(
                    acc@,
                )[j] == opt_insert(jval_fields(acc0), name@, jval(v))[j] by {
                    lemma_jval_fields_index(acc@, j);
                    if j > 0 {
                        lemma_jval_fields_index(acc0, j - 1);
                    }
                }
                assert(jval_fields(acc@) =~= opt_insert(jval_fields(acc0), name@, jval(v)));
            }
            acc
        } else {
            let ghost acc0 = acc@;
            let head = acc.remove(0);
            let ghost accrest = acc@;
            let mut rest = opt_insert_exec(acc, name, v);
            let ghost restv = rest@;
            rest.insert(0, head);
            proof {
                assert(accrest =~= acc0.drop_first());
                assert(rest@ =~= seq![head] + restv);
                lemma_jval_fields_len(rest@);
                lemma_jval_fields_len(acc0);
                assert(jval_fields(acc0).drop_first() =~= jval_fields(accrest)) by {
                    lemma_jval_fields_len(accrest);
                    assert forall|j: int| 0 <= j < accrest.len() implies #[trigger] jval_fields(
                        acc0,
                    ).drop_first()[j] == jval_fields(accrest)[j] by {
                        lemma_jval_fields_index(acc0, j + 1);
                        lemma_jval_fields_index(accrest, j);
                    }
                }
                lemma_jval_fields_index(acc0, 0);
                assert(jval_fields(acc0)[0].0 != name@);
                assert(!key_lt(name@, jval_fields(acc0)[0].0));
                assert(opt_insert(jval_fields(acc0), name@, jval(v)) == seq![
                    jval_fields(acc0)[0],
                ] + opt_insert(jval_fields(acc0).drop_first(), name@, jval(v)));
                assert(jval_fields(restv) == opt_insert(
                    jval_fields(acc0).drop_first(),
                    name@,
                    jval(v),
                ));
                lemma_jval_fields_len(restv);
                assert forall|j: int| 0 <= j < rest@.len() implies #[trigger] jval_fields(
                    rest@,
                )[j] == opt_insert(jval_fields(acc0), name@, jval(v))[j] by {
                    lemma_jval_fields_index(rest@, j);
                    if j > 0 {
                        lemma_jval_fields_index(restv, j - 1);
                    }
                }
                assert(jval_fields(rest@) =~= opt_insert(jval_fields(acc0), name@, jval(v)));
            }
            rest
        }
    }
}

/// Merges a new option value into an existing one, exactly as [`merged`]
/// describes.
fn merge_exec(old_v: JsonValue, new_v: JsonValue) -> (r: JsonValue)
    ensures
        jval(r) == merged(jval(old_v), jval(new_v)),
{
    match old_v {
        JsonValue::Null => new_v,
        JsonValue::Array(mut es) => {
            let ghost es0 = es@;
            es.push(new_v);
            proof {
                crate::json::lemma_jval_seq_len(es@);
                crate::json::lemma_jval_seq_len(es0);
                assert forall|j: int| 0 <= j < es@.len() implies #[trigger] crate::json::jval_seq(
                    es@,
                )[j] == crate::json::jval_seq(es0).push(jval(new_v))[j] by {
                    crate::json::lemma_jval_seq_index(es@, j);
                    if j < es0.len() {
                        crate::json::lemma_jval_seq_index(es0, j);
                    }
                }
                assert(crate::json::jval_seq(es@) =~= crate::json::jval_seq(es0).push(
                    jval(new_v),
                ));
            }
            JsonValue::Array(es)
        },
        other => {
            let mut es: Vec<JsonValue> = Vec::new();
            let ghost o = jval(other);
            es.push(other);
            es.push(new_v);
            proof {
                crate::json::lemma_jval_seq_len(es@);
                crate::json::lemma_jval_seq_index(es@, 0);
                crate::json::lemma_jval_seq_index(es@, 1);
                assert(crate::json::jval_seq(es@) =~= seq![o, jval(new_v)]);
            }
            JsonValue::Array(es)
        },
    }
}

/// Folds a list of metadata properties into a single option object: repeated
/// names accumulate into an array rather than overwriting. The result's
/// members are in ascending name order.
#[verifier::loop_isolation(false)]
pub fn metadata_properties_to_value(props: &Vec<MetadataProperty>) -> (r: JsonValue)
    requires
        forall|i: int| 0 <= i < props@.len() ==> wf_jval(mval((#[trigger] props@[i]).value)),
    ensures
        jval(r) == JsonVal::Object(fold_options(props_jvals(props@))),
        wf_jval(jval(r)),
{
    let mut fields: Vec<(String, JsonValue)> = Vec::new();
    let mut k: usize = 0;
    proof {
        assert(props_jvals(props@.take(0)) =~= Seq::<(Seq<char>, JsonVal)>::empty());
        assert(jval_fields(fields@) =~= fold_options(props_jvals(props@.take(0))));
    }
    while k < props.len()
        invariant
            k <= props@.len(),
            jval_fields(fields@) == fold_options(props_jvals(props@.take(k as int))),
            wf_jval(JsonVal::Object(jval_fields(fields@))),
        decreases props@.len() - k,
    {
        let v = metadata_to_json(&props[k].value);
        let ghost pre = jval_fields(fields@);
        fields = opt_insert_exec(fields, &props[k].name, v);
        proof {
            lemma_opt_insert_wf(pre, props@[k as int].name@, mval(props@[k as int].value));
            let taken = props_jvals(props@.take(k as int + 1));
            assert(taken.drop_last() =~= props_jvals(props@.take(k as int)));
            assert(taken.last() == (props@[k as int].name@, mval(props@[k as int].value)));
        }
        k += 1;
    }
    let r = JsonValue::Object(fields);
    proof {
        assert(props@.take(props@.len() as int) =~= props@);
    }
    r
}

} // verus!
