//! Sidetree operation objects: the Create operation's delta and suffix data,
//! and their canonical JSON forms.

use vstd::prelude::*;

use crate::json::{
    jval, jval_fields, key_lt, lemma_jval_fields_index, lemma_jval_fields_len,
    lemma_jval_seq_index, lemma_jval_seq_len, lemma_key_lt_ascii, jval_seq, wf_jval, JsonVal,
    JsonValue,
};
use crate::patches::{patch_jval, patch_wf, DIDStatePatch};

verus! {

/// The Create/Update/Recover delta object: the DID state patches to apply and
/// the update commitment.
pub struct Delta {
    pub patches: Vec<DIDStatePatch>,
    pub update_commitment: String,
}

/// The Create operation suffix data object: an optional type tag, the hash of
/// the canonicalized delta, the recovery commitment, and an optional anchor
/// origin.
pub struct SuffixData {
    pub type_: Option<String>,
    pub delta_hash: String,
    pub recovery_commitment: String,
    pub anchor_origin: Option<String>,
}

/// A Sidetree DID Create operation.
pub struct CreateOperation {
    pub delta: Delta,
    pub suffix_data: SuffixData,
}

/// A Sidetree operation. Only Create is implemented; Update, Recover and
/// Deactivate are designed to reuse the same commitment and patch machinery.
pub enum Operation {
    Create(CreateOperation),
}

/// The JSON form of a list of patches.
pub open spec fn patches_jval(ps: Seq<DIDStatePatch>) -> JsonVal {
    JsonVal::Array(ps.map_values(|p: DIDStatePatch| patch_jval(p)))
}

/// The JSON form of a delta object, keys in canonical order.
pub open spec fn delta_jval(d: Delta) -> JsonVal {
    JsonVal::Object(
        seq![
            ("patches"@, patches_jval(d.patches@)),
            ("updateCommitment"@, JsonVal::Text(d.update_commitment@)),
        ],
    )
}

/// The JSON form of a suffix data object: `anchorOrigin` and `type` are
/// omitted when absent, keys in canonical order.
pub open spec fn suffix_jval(s: SuffixData) -> JsonVal {
    let pre = match s.anchor_origin {
        Option::Some(a) => seq![("anchorOrigin"@, JsonVal::Text(a@))],
        Option::None => Seq::empty(),
    };
    let mid = seq![
        ("deltaHash"@, JsonVal::Text(s.delta_hash@)),
        ("recoveryCommitment"@, JsonVal::Text(s.recovery_commitment@)),
    ];
    let post = match s.type_ {
        Option::Some(t) => seq![("type"@, JsonVal::Text(t@))],
        Option::None => Seq::empty(),
    };
    JsonVal::Object(pre + mid + post)
}

/// The JSON form of a Create operation, tagged with `"type": "create"`.
pub open spec fn create_jval(c: CreateOperation) -> JsonVal {
    JsonVal::Object(
        seq![
            ("delta"@, delta_jval(c.delta)),
            ("suffixData"@, suffix_jval(c.suffix_data)),
            ("type"@, JsonVal::Text("create"@)),
        ],
    )
}

/// The JSON form of an operation.
pub open spec fn op_jval(o: Operation) -> JsonVal {
    match o {
        Operation::Create(c) => create_jval(c),
    }
}

/// Well-formedness of a delta's caller-supplied parts.
pub open spec fn delta_wf(d: Delta) -> bool {
    forall|i: int| 0 <= i < d.patches@.len() ==> patch_wf(#[trigger] d.patches@[i])
}

/// Well-formedness of an operation's caller-supplied parts.
pub open spec fn op_wf(o: Operation) -> bool {
    match o {
        Operation::Create(c) => delta_wf(c.delta),
    }
}

/// The canonical order of the operation member keys.
proof fn lemma_op_keys_sorted()
    ensures
        key_lt("patches"@, "updateCommitment"@),
        key_lt("anchorOrigin"@, "deltaHash"@),
        key_lt("deltaHash"@, "recoveryCommitment"@),
        key_lt("recoveryCommitment"@, "type"@),
        key_lt("delta"@, "suffixData"@),
        key_lt("suffixData"@, "type"@),
{
    reveal_strlit("patches");
    reveal_strlit("updateCommitment");
    reveal_strlit("anchorOrigin");
    reveal_strlit("deltaHash");
    reveal_strlit("recoveryCommitment");
    reveal_strlit("type");
    reveal_strlit("delta");
    reveal_strlit("suffixData");
    lemma_key_lt_ascii("patches"@, "updateCommitment"@, 0);
    lemma_key_lt_ascii("anchorOrigin"@, "deltaHash"@, 0);
    lemma_key_lt_ascii("deltaHash"@, "recoveryCommitment"@, 0);
    lemma_key_lt_ascii("recoveryCommitment"@, "type"@, 0);
    lemma_key_lt_ascii("delta"@, "suffixData"@, 0);
    lemma_key_lt_ascii("suffixData"@, "type"@, 0);
}

/// The JSON array of a list of patches.
#[verifier::loop_isolation(false)]
fn patches_to_json(ps: &Vec<DIDStatePatch>) -> (r: JsonValue)
    requires
        forall|i: int| 0 <= i < ps@.len() ==> patch_wf(#[trigger] ps@[i]),
    ensures
        jval(r) == patches_jval(ps@),
        wf_jval(jval(r)),
{
    let mut out: Vec<JsonValue> = Vec::new();
    let mut i: usize = 0;
    while i < ps.len()
        invariant
            i <= ps.len(),
            out@.len() == i,
            forall|j: int|
                0 <= j < i ==> jval(#[trigger] out@[j]) == patch_jval(ps@[j]) && wf_jval(
                    jval(out@[j]),
                ),
        decreases ps.len() - i,
    {
        out.push(ps[i].to_json());
        i += 1;
    }
    let r = JsonValue::Array(out);
    proof {
        lemma_jval_seq_len(out@);
        assert forall|j: int| 0 <= j < out@.len() implies #[trigger] jval_seq(out@)[j]
            == patches_jval(ps@)->Array_0[j] by {
            lemma_jval_seq_index(out@, j);
        }
        assert(jval_seq(out@) =~= patches_jval(ps@)->Array_0);
        assert(jval(r) == patches_jval(ps@));
        assert forall|j: int| 0 <= j < jval_seq(out@).len() implies wf_jval(
            #[trigger] jval_seq(out@)[j],
        ) by {
            lemma_jval_seq_index(out@, j);
        }
        assert(wf_jval(jval(r)));
    }
    r
}

impl Delta {
    /// The canonical JSON object of this delta; the result is well formed.
    pub fn to_json(&self) -> (r: JsonValue)
        requires
            delta_wf(*self),
        ensures
            jval(r) == delta_jval(*self),
            wf_jval(jval(r)),
    {
        let mut fields: Vec<(String, JsonValue)> = Vec::new();
        fields.push(("patches".to_owned(), patches_to_json(&self.patches)));
        fields.push(
            ("updateCommitment".to_owned(), JsonValue::Text(self.update_commitment.clone())),
        );
        let r = JsonValue::Object(fields);
        proof {
            lemma_jval_fields_len(fields@);
            lemma_jval_fields_index(fields@, 0);
            lemma_jval_fields_index(fields@, 1);
            assert(jval_fields(fields@) =~= delta_jval(*self)->Object_0);
            assert(jval(r) == delta_jval(*self));
            lemma_op_keys_sorted();
            let fs = jval_fields(fields@);
            assert forall|k: int| 0 <= k < fs.len() implies wf_jval(#[trigger] fs[k].1) by {
                assert(wf_jval(fs[k].1));
            }
            assert forall|k: int| 0 <= k < fs.len() - 1 implies key_lt(
                #[trigger] fs[k].0,
                fs[k + 1].0,
            ) by {
                assert(key_lt(fs[k].0, fs[k + 1].0));
            }
            crate::json::lemma_obj_wf(fs);
        }
        r
    }
}

impl SuffixData {
    /// The canonical JSON object of this suffix data; the result is well
    /// formed.
    pub fn to_json(&self) -> (r: JsonValue)
        ensures
            jval(r) == suffix_jval(*self),
            wf_jval(jval(r)),
    {
        let mut fields: Vec<(String, JsonValue)> = Vec::new();
        match &self.anchor_origin {
            Option::Some(a) => {
                fields.push(("anchorOrigin".to_owned(), JsonValue::Text(a.clone())));
            },
            Option::None => {},
        }
        fields.push(("deltaHash".to_owned(), JsonValue::Text(self.delta_hash.clone())));
        fields.push(
            ("recoveryCommitment".to_owned(), JsonValue::Text(self.recovery_commitment.clone())),
        );
        match &self.type_ {
            Option::Some(t) => {
                fields.push(("type".to_owned(), JsonValue::Text(t.clone())));
            },
            Option::None => {},
        }
        let r = JsonValue::Object(fields);
        proof {
            lemma_jval_fields_len(fields@);
            lemma_jval_fields_index(fields@, 0);
            lemma_jval_fields_index(fields@, 1);
            if fields@.len() > 2 {
                lemma_jval_fields_index(fields@, 2);
            }
            if fields@.len() > 3 {
                lemma_jval_fields_index(fields@, 3);
            }
            assert(jval_fields(fields@) =~= suffix_jval(*self)->Object_0);
            assert(jval(r) == suffix_jval(*self));
            lemma_op_keys_sorted();
            let fs = jval_fields(fields@);
            assert forall|k: int| 0 <= k < fs.len() implies wf_jval(#[trigger] fs[k].1) by {
                assert(wf_jval(fs[k].1));
            }
            assert forall|k: int| 0 <= k < fs.len() - 1 implies key_lt(
                #[trigger] fs[k].0,
                fs[k + 1].0,
            ) by {
                assert(key_lt(fs[k].0, fs[k + 1].0));
            }
            crate::json::lemma_obj_wf(fs);
        }
        r
    }
}

impl CreateOperation {
    /// The canonical JSON object of this Create operation, tagged with
    /// `"type": "create"`; the result is well formed.
    pub fn to_json(&self) -> (r: JsonValue)
        requires
            delta_wf(self.delta),
        ensures
            jval(r) == create_jval(*self),
            wf_jval(jval(r)),
    {
        let mut fields: Vec<(String, JsonValue)> = Vec::new();
        fields.push(("delta".to_owned(), self.delta.to_json()));
        fields.push(("suffixData".to_owned(), self.suffix_data.to_json()));
        fields.push(("type".to_owned(), JsonValue::Text("create".to_owned())));
        let r = JsonValue::Object(fields);
        proof {
            lemma_jval_fields_len(fields@);
            lemma_jval_fields_index(fields@, 0);
            lemma_jval_fields_index(fields@, 1);
            lemma_jval_fields_index(fields@, 2);
            assert(jval_fields(fields@) =~= create_jval(*self)->Object_0);
            assert(jval(r) == create_jval(*self));
            lemma_op_keys_sorted();
            let fs = jval_fields(fields@);
            assert forall|k: int| 0 <= k < fs.len() implies wf_jval(#[trigger] fs[k].1) by {
                assert(wf_jval(fs[k].1));
            }
            assert forall|k: int| 0 <= k < fs.len() - 1 implies key_lt(
                #[trigger] fs[k].0,
                fs[k + 1].0,
            ) by {
                assert(key_lt(fs[k].0, fs[k + 1].0));
            }
            crate::json::lemma_obj_wf(fs);
        }
        r
    }
}

impl Operation {
    /// The canonical JSON object of this operation; the result is well formed.
    pub fn to_json(&self) -> (r: JsonValue)
        requires
            op_wf(*self),
        ensures
            jval(r) == op_jval(*self),
            wf_jval(jval(r)),
    {
        match self {
            Operation::Create(c) => c.to_json(),
        }
    }
}

} // verus!

verus! {

/// Reads a list of patches back from a JSON array.
#[verifier::loop_isolation(false)]
fn patches_from_json(v: &JsonValue) -> (r: Option<Vec<DIDStatePatch>>)
    ensures
        match r {
            Option::Some(ps) => patches_jval(ps@) == jval(*v),
            Option::None => true,
        },
        (exists|ps: Vec<DIDStatePatch>| patches_jval(ps@) == jval(*v)) ==> r is Some,
{
    match v {
        JsonValue::Array(elems) => {
            let mut out: Vec<DIDStatePatch> = Vec::new();
            let mut i: usize = 0;
            while i < elems.len()
                invariant
                    i <= elems.len(),
                    out@.len() == i,
                    forall|j: int|
                        0 <= j < i ==> crate::patches::patch_jval(#[trigger] out@[j])
                            == jval_seq(elems@)[j],
                decreases elems.len() - i,
            {
                proof {
                    lemma_jval_seq_index(elems@, i as int);
                }
                match DIDStatePatch::from_json(&elems[i]) {
                    Option::Some(x) => {
                        out.push(x);
                    },
                    Option::None => {
                        proof {
                            if exists|ps: Vec<DIDStatePatch>| patches_jval(ps@) == jval(*v) {
                                let ps = choose|ps: Vec<DIDStatePatch>| patches_jval(ps@) == jval(
                                    *v,
                                );
                                lemma_jval_seq_len(elems@);
                                assert(patches_jval(ps@)->Array_0 == jval_seq(elems@));
                                assert(patches_jval(ps@)->Array_0.len() == ps@.len());
                                assert(patches_jval(ps@)->Array_0[i as int]
                                    == crate::patches::patch_jval(ps@[i as int]));
                                assert(crate::patches::patch_jval(ps@[i as int]) == jval(
                                    elems@[i as int],
                                ));
                                assert(false);
                            }
                        }
                        return Option::None;
                    },
                }
                i += 1;
            }
            proof {
                lemma_jval_seq_len(elems@);
                assert(patches_jval(out@)->Array_0 =~= jval_seq(elems@));
            }
            Option::Some(out)
        },
        _ => {
            proof {
                crate::json::lemma_jval_variant(*v);
                if exists|ps: Vec<DIDStatePatch>| patches_jval(ps@) == jval(*v) {
                    let ps = choose|ps: Vec<DIDStatePatch>| patches_jval(ps@) == jval(*v);
                    assert(jval(*v) is Array);
                    assert(false);
                }
            }
            Option::None
        },
    }
}

/// What any witness of a delta's JSON form looks like.
proof fn lemma_delta_shape(d: Delta, w: JsonVal)
    requires
        delta_jval(d) == w,
    ensures
        w is Object,
        w->Object_0.len() == 2,
        w->Object_0[0].0 == "patches"@,
        w->Object_0[0].1 == patches_jval(d.patches@),
        w->Object_0[1].0 == "updateCommitment"@,
        w->Object_0[1].1 is Text,
{
}

impl Delta {
    /// Reads a delta back from its JSON object: it succeeds on exactly the
    /// values some delta serializes to.
    pub fn from_json(v: &JsonValue) -> (r: Option<Delta>)
        ensures
            match r {
                Option::Some(d) => delta_jval(d) == jval(*v),
                Option::None => true,
            },
            (exists|d: Delta| delta_jval(d) == jval(*v)) ==> r is Some,
    {
        let fields = match v {
            JsonValue::Object(fields) => fields,
            _ => {
                proof {
                    crate::json::lemma_jval_variant(*v);
                    if exists|d: Delta| delta_jval(d) == jval(*v) {
                        let d = choose|d: Delta| delta_jval(d) == jval(*v);
                        lemma_delta_shape(d, jval(*v));
                    }
                }
                return Option::None;
            },
        };
        proof {
            lemma_jval_fields_len(fields@);
        }
        if fields.len() != 2 {
            proof {
                if exists|d: Delta| delta_jval(d) == jval(*v) {
                    let d = choose|d: Delta| delta_jval(d) == jval(*v);
                    lemma_delta_shape(d, jval(*v));
                }
            }
            return Option::None;
        }
        proof {
            lemma_jval_fields_index(fields@, 0);
            lemma_jval_fields_index(fields@, 1);
        }
        if !crate::json::str_eq_chars(fields[0].0.as_str(), "patches") {
            proof {
                if exists|d: Delta| delta_jval(d) == jval(*v) {
                    let d = choose|d: Delta| delta_jval(d) == jval(*v);
                    lemma_delta_shape(d, jval(*v));
                }
            }
            return Option::None;
        }
        let patches = match patches_from_json(&fields[0].1) {
            Option::Some(ps) => ps,
            Option::None => {
                proof {
                    if exists|d: Delta| delta_jval(d) == jval(*v) {
                        let d = choose|d: Delta| delta_jval(d) == jval(*v);
                        lemma_delta_shape(d, jval(*v));
                        assert(patches_jval(d.patches@) == jval(fields@[0].1));
                        assert(false);
                    }
                }
                return Option::None;
            },
        };
        if !crate::json::str_eq_chars(fields[1].0.as_str(), "updateCommitment") {
            proof {
                if exists|d: Delta| delta_jval(d) == jval(*v) {
                    let d = choose|d: Delta| delta_jval(d) == jval(*v);
                    lemma_delta_shape(d, jval(*v));
                }
            }
            return Option::None;
        }
        let update_commitment = match &fields[1].1 {
            JsonValue::Text(s) => s.clone(),
            _ => {
                proof {
                    crate::json::lemma_jval_variant(fields@[1].1);
                    if exists|d: Delta| delta_jval(d) == jval(*v) {
                        let d = choose|d: Delta| delta_jval(d) == jval(*v);
                        lemma_delta_shape(d, jval(*v));
                    }
                }
                return Option::None;
            },
        };
        let d = Delta { patches, update_commitment };
        proof {
            lemma_jval_fields_len(fields@);
            lemma_jval_fields_index(fields@, 0);
            lemma_jval_fields_index(fields@, 1);
            assert(delta_jval(d)->Object_0 =~= jval_fields(fields@));
            assert(delta_jval(d) == jval(*v));
        }
        Option::Some(d)
    }
}

/// What any witness of a suffix data object's JSON form looks like.
proof fn lemma_suffix_shape(x: SuffixData, w: JsonVal)
    requires
        suffix_jval(x) == w,
    ensures
        w is Object,
        2 <= w->Object_0.len() <= 4,
        (x.anchor_origin is Some) == (w->Object_0[0].0 == "anchorOrigin"@),
        x.anchor_origin is Some ==> w->Object_0[0].1 is Text,
        ({
            let a: int = if x.anchor_origin is Some {
                1
            } else {
                0
            };
            w->Object_0.len() == a + 2 + (if x.type_ is Some {
                1int
            } else {
                0
            }) && w->Object_0[a].0 == "deltaHash"@ && w->Object_0[a].1 is Text && w->Object_0[a
                + 1].0 == "recoveryCommitment"@ && w->Object_0[a + 1].1 is Text && (
            x.type_ is Some ==> w->Object_0[a + 2].0 == "type"@ && w->Object_0[a + 2].1 is Text)
        }),
{
    reveal_strlit("anchorOrigin");
    reveal_strlit("deltaHash");
    assert(("anchorOrigin"@)[0] != ("deltaHash"@)[0]);
}

impl SuffixData {
    /// Reads suffix data back from its JSON object: it succeeds on exactly
    /// the values some suffix data serializes to.
    pub fn from_json(v: &JsonValue) -> (r: Option<SuffixData>)
        ensures
            match r {
                Option::Some(s) => suffix_jval(s) == jval(*v),
                Option::None => true,
            },
            (exists|x: SuffixData| suffix_jval(x) == jval(*v)) ==> r is Some,
    {
        let fields = match v {
            JsonValue::Object(fields) => fields,
            _ => {
                proof {
                    crate::json::lemma_jval_variant(*v);
                    if exists|x: SuffixData| suffix_jval(x) == jval(*v) {
                        let x = choose|x: SuffixData| suffix_jval(x) == jval(*v);
                        lemma_suffix_shape(x, jval(*v));
                    }
                }
                return Option::None;
            },
        };
        proof {
            lemma_jval_fields_len(fields@);
        }
        if fields.len() < 2 || fields.len() > 4 {
            proof {
                if exists|x: SuffixData| suffix_jval(x) == jval(*v) {
                    let x = choose|x: SuffixData| suffix_jval(x) == jval(*v);
                    lemma_suffix_shape(x, jval(*v));
                }
            }
            return Option::None;
        }
        proof {
            lemma_jval_fields_index(fields@, 0);
            lemma_jval_fields_index(fields@, 1);
            if fields@.len() > 2 {
                lemma_jval_fields_index(fields@, 2);
            }
            if fields@.len() > 3 {
                lemma_jval_fields_index(fields@, 3);
            }
        }
        let mut at: usize = 0;
        let anchor_origin: Option<String> = if crate::json::str_eq_chars(
            fields[0].0.as_str(),
            "anchorOrigin",
        ) {
            let a = match &fields[0].1 {
                JsonValue::Text(a) => a.clone(),
                _ => {
                    proof {
                        crate::json::lemma_jval_variant(fields@[0].1);
                    }
                    proof {
                    if exists|x: SuffixData| suffix_jval(x) == jval(*v) {
                        let x = choose|x: SuffixData| suffix_jval(x) == jval(*v);
                        lemma_suffix_shape(x, jval(*v));
                    }
                }
                return Option::None;
                },
            };
            at = 1;
            Option::Some(a)
        } else {
            Option::None
        };
        if at + 2 > fields.len() {
            proof {
                if exists|x: SuffixData| suffix_jval(x) == jval(*v) {
                    let x = choose|x: SuffixData| suffix_jval(x) == jval(*v);
                    lemma_suffix_shape(x, jval(*v));
                }
            }
            return Option::None;
        }
        if !crate::json::str_eq_chars(fields[at].0.as_str(), "deltaHash") {
            proof {
                if exists|x: SuffixData| suffix_jval(x) == jval(*v) {
                    let x = choose|x: SuffixData| suffix_jval(x) == jval(*v);
                    lemma_suffix_shape(x, jval(*v));
                }
            }
            return Option::None;
        }
        let delta_hash = match &fields[at].1 {
            JsonValue::Text(s) => s.clone(),
            _ => {
                proof {
                    crate::json::lemma_jval_variant(fields@[at as int].1);
                }
                proof {
                    if exists|x: SuffixData| suffix_jval(x) == jval(*v) {
                        let x = choose|x: SuffixData| suffix_jval(x) == jval(*v);
                        lemma_suffix_shape(x, jval(*v));
                    }
                }
                return Option::None;
            },
        };
        if !crate::json::str_eq_chars(fields[at + 1].0.as_str(), "recoveryCommitment") {
            proof {
                if exists|x: SuffixData| suffix_jval(x) == jval(*v) {
                    let x = choose|x: SuffixData| suffix_jval(x) == jval(*v);
                    lemma_suffix_shape(x, jval(*v));
                }
            }
            return Option::None;
        }
        let recovery_commitment = match &fields[at + 1].1 {
            JsonValue::Text(s) => s.clone(),
            _ => {
                proof {
                    crate::json::lemma_jval_variant(fields@[at + 1].1);
                }
                proof {
                    if exists|x: SuffixData| suffix_jval(x) == jval(*v) {
                        let x = choose|x: SuffixData| suffix_jval(x) == jval(*v);
                        lemma_suffix_shape(x, jval(*v));
                    }
                }
                return Option::None;
            },
        };
        let type_: Option<String> = if at + 2 < fields.len() {
            if !crate::json::str_eq_chars(fields[at + 2].0.as_str(), "type") {
                proof {
                    if exists|x: SuffixData| suffix_jval(x) == jval(*v) {
                        let x = choose|x: SuffixData| suffix_jval(x) == jval(*v);
                        lemma_suffix_shape(x, jval(*v));
                    }
                }
                return Option::None;
            }
            match &fields[at + 2].1 {
                JsonValue::Text(t) => Option::Some(t.clone()),
                _ => {
                    proof {
                        crate::json::lemma_jval_variant(fields@[at + 2].1);
                    }
                    proof {
                    if exists|x: SuffixData| suffix_jval(x) == jval(*v) {
                        let x = choose|x: SuffixData| suffix_jval(x) == jval(*v);
                        lemma_suffix_shape(x, jval(*v));
                    }
                }
                return Option::None;
                },
            }
        } else {
            Option::None
        };
        if at + 2 + (if type_.is_some() { 1 } else { 0 }) != fields.len() {
            proof {
                if exists|x: SuffixData| suffix_jval(x) == jval(*v) {
                    let x = choose|x: SuffixData| suffix_jval(x) == jval(*v);
                    lemma_suffix_shape(x, jval(*v));
                }
            }
            return Option::None;
        }
        let s = SuffixData { type_, delta_hash, recovery_commitment, anchor_origin };
        proof {
            lemma_jval_fields_len(fields@);
            lemma_jval_fields_index(fields@, 0);
            lemma_jval_fields_index(fields@, 1);
            if fields@.len() > 2 {
                lemma_jval_fields_index(fields@, 2);
            }
            if fields@.len() > 3 {
                lemma_jval_fields_index(fields@, 3);
            }
            assert(suffix_jval(s)->Object_0 =~= jval_fields(fields@));
            assert(suffix_jval(s) == jval(*v));
        }
        Option::Some(s)
    }
}

/// What any witness of an operation's JSON form looks like.
proof fn lemma_op_shape(op: Operation, w: JsonVal)
    requires
        op_jval(op) == w,
    ensures
        w is Object,
        w->Object_0.len() == 3,
        w->Object_0[0].0 == "delta"@,
        w->Object_0[0].1 == delta_jval(op->Create_0.delta),
        w->Object_0[1].0 == "suffixData"@,
        w->Object_0[1].1 == suffix_jval(op->Create_0.suffix_data),
        w->Object_0[2].0 == "type"@,
        w->Object_0[2].1 == JsonVal::Text("create"@),
{
}

impl Operation {
    /// Reads an operation back from its JSON object: a Create operation
    /// tagged with `"type": "create"`. It succeeds on exactly the values
    /// some operation serializes to.
    pub fn from_json(v: &JsonValue) -> (r: Option<Operation>)
        ensures
            match r {
                Option::Some(op) => op_jval(op) == jval(*v),
                Option::None => true,
            },
            (exists|op2: Operation| op_jval(op2) == jval(*v)) ==> r is Some,
    {
        let fields = match v {
            JsonValue::Object(fields) => fields,
            _ => {
                proof {
                    crate::json::lemma_jval_variant(*v);
                    if exists|op2: Operation| op_jval(op2) == jval(*v) {
                        let op2 = choose|op2: Operation| op_jval(op2) == jval(*v);
                        lemma_op_shape(op2, jval(*v));
                    }
                }
                return Option::None;
            },
        };
        proof {
            lemma_jval_fields_len(fields@);
        }
        if fields.len() != 3 {
            proof {
                if exists|op2: Operation| op_jval(op2) == jval(*v) {
                    let op2 = choose|op2: Operation| op_jval(op2) == jval(*v);
                    lemma_op_shape(op2, jval(*v));
                }
            }
            return Option::None;
        }
        proof {
            lemma_jval_fields_index(fields@, 0);
            lemma_jval_fields_index(fields@, 1);
            lemma_jval_fields_index(fields@, 2);
        }
        if !crate::json::str_eq_chars(fields[0].0.as_str(), "delta") {
            proof {
                if exists|op2: Operation| op_jval(op2) == jval(*v) {
                    let op2 = choose|op2: Operation| op_jval(op2) == jval(*v);
                    lemma_op_shape(op2, jval(*v));
                }
            }
            return Option::None;
        }
        let delta = match Delta::from_json(&fields[0].1) {
            Option::Some(d) => d,
            Option::None => {
                proof {
                    if exists|op2: Operation| op_jval(op2) == jval(*v) {
                        let op2 = choose|op2: Operation| op_jval(op2) == jval(*v);
                        lemma_op_shape(op2, jval(*v));
                        assert(delta_jval(op2->Create_0.delta) == jval(fields@[0].1));
                        assert(false);
                    }
                }
                return Option::None;
            },
        };
        if !crate::json::str_eq_chars(fields[1].0.as_str(), "suffixData") {
            proof {
                if exists|op2: Operation| op_jval(op2) == jval(*v) {
                    let op2 = choose|op2: Operation| op_jval(op2) == jval(*v);
                    lemma_op_shape(op2, jval(*v));
                }
            }
            return Option::None;
        }
        let suffix_data = match SuffixData::from_json(&fields[1].1) {
            Option::Some(s) => s,
            Option::None => {
                proof {
                    if exists|op2: Operation| op_jval(op2) == jval(*v) {
                        let op2 = choose|op2: Operation| op_jval(op2) == jval(*v);
                        lemma_op_shape(op2, jval(*v));
                        assert(suffix_jval(op2->Create_0.suffix_data) == jval(fields@[1].1));
                        assert(false);
                    }
                }
                return Option::None;
            },
        };
        if !crate::json::str_eq_chars(fields[2].0.as_str(), "type") {
            proof {
                if exists|op2: Operation| op_jval(op2) == jval(*v) {
                    let op2 = choose|op2: Operation| op_jval(op2) == jval(*v);
                    lemma_op_shape(op2, jval(*v));
                }
            }
            return Option::None;
        }
        match &fields[2].1 {
            JsonValue::Text(t) => {
                if !crate::json::str_eq_chars(t.as_str(), "create") {
                    proof {
                    if exists|op2: Operation| op_jval(op2) == jval(*v) {
                        let op2 = choose|op2: Operation| op_jval(op2) == jval(*v);
                        lemma_op_shape(op2, jval(*v));
                    }
                }
                return Option::None;
                }
            },
            _ => {
                proof {
                    crate::json::lemma_jval_variant(fields@[2].1);
                }
                proof {
                    if exists|op2: Operation| op_jval(op2) == jval(*v) {
                        let op2 = choose|op2: Operation| op_jval(op2) == jval(*v);
                        lemma_op_shape(op2, jval(*v));
                    }
                }
                return Option::None;
            },
        }
        let op = Operation::Create(CreateOperation { delta, suffix_data });
        proof {
            lemma_jval_fields_len(fields@);
            lemma_jval_fields_index(fields@, 0);
            lemma_jval_fields_index(fields@, 1);
            lemma_jval_fields_index(fields@, 2);
            assert(op_jval(op)->Object_0 =~= jval_fields(fields@));
            assert(op_jval(op) == jval(*v));
        }
        Option::Some(op)
    }
}

} // verus!
