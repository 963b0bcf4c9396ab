//! A JSON value model and its canonical (JCS-style) serialization: object keys
//! in strictly ascending order, no insignificant whitespace, minimal string
//! escapes and minimal integer notation, so that semantically identical values
//! always serialize to identical bytes.

use vstd::prelude::*;
use vstd::utf8::encode_utf8;

verus! {

/// A JSON value. Numbers are modeled as 64-bit integers: the protocol data
/// handled by this crate carries no fractional numbers, and integers have an
/// exact canonical form.
pub enum JsonValue {
    Null,
    Bool(bool),
    Int(i64),
    Text(String),
    Array(Vec<JsonValue>),
    Object(Vec<(String, JsonValue)>),
}

/// The mathematical abstraction of a [`JsonValue`].
#[verifier::ext_equal]
pub enum JsonVal {
    Null,
    Bool(bool),
    Int(int),
    Text(Seq<char>),
    Array(Seq<JsonVal>),
    Object(Seq<(Seq<char>, JsonVal)>),
}

/// Abstraction function from an executable JSON value to its model.
pub open spec fn jval(v: JsonValue) -> JsonVal
    decreases v, 0int,
{
    match v {
        JsonValue::Null => JsonVal::Null,
        JsonValue::Bool(b) => JsonVal::Bool(b),
        JsonValue::Int(i) => JsonVal::Int(i as int),
        JsonValue::Text(s) => JsonVal::Text(s@),
        JsonValue::Array(a) => JsonVal::Array(jval_seq(a@)),
        JsonValue::Object(o) => JsonVal::Object(jval_fields(o@)),
    }
}

/// Abstraction of a sequence of JSON values, element by element.
pub open spec fn jval_seq(a: Seq<JsonValue>) -> Seq<JsonVal>
    decreases a, 1int,
{
    if a.len() == 0 {
        Seq::empty()
    } else {
        seq![jval(a[0])] + jval_seq(a.drop_first())
    }
}

/// Abstraction of a sequence of object members, member by member.
pub open spec fn jval_fields(o: Seq<(String, JsonValue)>) -> Seq<(Seq<char>, JsonVal)>
    decreases o, 1int,
{
    if o.len() == 0 {
        Seq::empty()
    } else {
        seq![(o[0].0@, jval(o[0].1))] + jval_fields(o.drop_first())
    }
}

/// The abstraction of a value sequence abstracts each element in place.
pub broadcast proof fn lemma_jval_seq_index(a: Seq<JsonValue>, i: int)
    requires
        0 <= i < a.len(),
    ensures
        #[trigger] jval_seq(a)[i] == jval(a[i]),
        jval_seq(a).len() == a.len(),
    decreases a.len(),
{
    if a.len() > 0 && i > 0 {
        lemma_jval_seq_index(a.drop_first(), i - 1);
    }
    lemma_jval_seq_len(a);
}

/// The abstraction of a value sequence preserves its length.
pub broadcast proof fn lemma_jval_seq_len(a: Seq<JsonValue>)
    ensures
        #[trigger] jval_seq(a).len() == a.len(),
    decreases a.len(),
{
    if a.len() > 0 {
        lemma_jval_seq_len(a.drop_first());
    }
}

/// The abstraction of a member sequence abstracts each member in place.
pub broadcast proof fn lemma_jval_fields_index(o: Seq<(String, JsonValue)>, i: int)
    requires
        0 <= i < o.len(),
    ensures
        #[trigger] jval_fields(o)[i] == (o[i].0@, jval(o[i].1)),
        jval_fields(o).len() == o.len(),
    decreases o.len(),
{
    if o.len() > 0 && i > 0 {
        lemma_jval_fields_index(o.drop_first(), i - 1);
    }
    lemma_jval_fields_len(o);
}

/// The abstraction of a member sequence preserves its length.
pub broadcast proof fn lemma_jval_fields_len(o: Seq<(String, JsonValue)>)
    ensures
        #[trigger] jval_fields(o).len() == o.len(),
    decreases o.len(),
{
    if o.len() > 0 {
        lemma_jval_fields_len(o.drop_first());
    }
}

/// Strict lexicographic order on byte sequences.
pub open spec fn bytes_lt(a: Seq<u8>, b: Seq<u8>) -> bool
    decreases a.len(),
{
    if b.len() == 0 {
        false
    } else if a.len() == 0 {
        true
    } else if a[0] < b[0] {
        true
    } else if a[0] > b[0] {
        false
    } else {
        bytes_lt(a.drop_first(), b.drop_first())
    }
}

/// Canonical order on object keys: lexicographic on the keys' UTF-8 bytes,
/// which coincides with lexicographic order on Unicode code points. For keys
/// holding a quote, a backslash or a control character this differs from an
/// order over the keys' escaped serialized forms; no key of the protocol
/// contains such a character.
pub open spec fn key_lt(a: Seq<char>, b: Seq<char>) -> bool {
    bytes_lt(encode_utf8(a), encode_utf8(b))
}

/// Well-formedness of a JSON model value: integers fit in 64 bits and every
/// object's keys are strictly ascending (hence unique) in canonical order.
pub open spec fn wf_jval(v: JsonVal) -> bool
    decreases v,
{
    match v {
        JsonVal::Null => true,
        JsonVal::Bool(_) => true,
        JsonVal::Int(i) => i64::MIN <= i <= i64::MAX,
        JsonVal::Text(_) => true,
        JsonVal::Array(es) => forall|i: int| 0 <= i < es.len() ==> wf_jval(#[trigger] es[i]),
        JsonVal::Object(fs) => (forall|i: int|
            0 <= i < fs.len() ==> wf_jval(#[trigger] fs[i].1)) && (forall|i: int, j: int|
            0 <= i < j < fs.len() ==> key_lt(fs[i].0, fs[j].0)),
    }
}

/// Lowercase hexadecimal digit for a value below 16.
pub open spec fn hex_digit(i: int) -> u8 {
    if i < 10 {
        (48 + i) as u8
    } else {
        (87 + i) as u8
    }
}

/// Canonical escape of one byte of UTF-8 string content, exactly as JCS
/// prescribes: two-character escapes for `"`, `\` and the five named control
/// characters, `\u00xx` for the other control bytes, all else verbatim.
pub open spec fn esc1(b: u8) -> Seq<u8> {
    if b == 34 {
        seq![92u8, 34u8]
    } else if b == 92 {
        seq![92u8, 92u8]
    } else if b == 8 {
        seq![92u8, 98u8]
    } else if b == 9 {
        seq![92u8, 116u8]
    } else if b == 10 {
        seq![92u8, 110u8]
    } else if b == 12 {
        seq![92u8, 102u8]
    } else if b == 13 {
        seq![92u8, 114u8]
    } else if b < 32 {
        seq![92u8, 117u8, 48u8, 48u8, hex_digit(b as int / 16), hex_digit(b as int % 16)]
    } else {
        seq![b]
    }
}

/// Canonical escape of UTF-8 string content, byte by byte.
pub open spec fn esc(bs: Seq<u8>) -> Seq<u8>
    decreases bs.len(),
{
    if bs.len() == 0 {
        Seq::empty()
    } else {
        esc1(bs[0]) + esc(bs.drop_first())
    }
}

/// Decimal digits of a non-negative integer, most significant first.
pub open spec fn dec_u(n: int) -> Seq<u8>
    recommends
        n >= 0,
    decreases n,
{
    if n < 10 {
        seq![(48 + if n >= 0 { n } else { 0 }) as u8]
    } else {
        dec_u(n / 10) + seq![(48 + n % 10) as u8]
    }
}

/// Canonical decimal notation of an integer.
pub open spec fn dec_bytes(i: int) -> Seq<u8> {
    if i < 0 {
        seq![45u8] + dec_u(-i)
    } else {
        dec_u(i)
    }
}

/// Canonical bytes of a quoted, escaped JSON string.
pub open spec fn cjson_string(s: Seq<char>) -> Seq<u8> {
    seq![34u8] + esc(encode_utf8(s)) + seq![34u8]
}

/// Canonical bytes of one object member: quoted key, colon, value.
pub open spec fn cjson_member(k: Seq<char>, v: JsonVal) -> Seq<u8>
    decreases v, 1int,
{
    cjson_string(k) + seq![58u8] + cjson(v)
}

/// Canonical bytes of the members after the first, each preceded by a comma.
pub open spec fn cjson_members_rest(fs: Seq<(Seq<char>, JsonVal)>) -> Seq<u8>
    decreases fs, 2int,
{
    if fs.len() == 0 {
        Seq::empty()
    } else {
        seq![44u8] + cjson_member(fs[0].0, fs[0].1) + cjson_members_rest(fs.drop_first())
    }
}

/// Canonical bytes of an object's comma-separated members.
pub open spec fn cjson_members(fs: Seq<(Seq<char>, JsonVal)>) -> Seq<u8>
    decreases fs, 2int,
{
    if fs.len() == 0 {
        Seq::empty()
    } else {
        cjson_member(fs[0].0, fs[0].1) + cjson_members_rest(fs.drop_first())
    }
}

/// Canonical bytes of the array items after the first, each preceded by a comma.
pub open spec fn cjson_items_rest(es: Seq<JsonVal>) -> Seq<u8>
    decreases es, 2int,
{
    if es.len() == 0 {
        Seq::empty()
    } else {
        seq![44u8] + cjson(es[0]) + cjson_items_rest(es.drop_first())
    }
}

/// Canonical bytes of an array's comma-separated items.
pub open spec fn cjson_items(es: Seq<JsonVal>) -> Seq<u8>
    decreases es, 2int,
{
    if es.len() == 0 {
        Seq::empty()
    } else {
        cjson(es[0]) + cjson_items_rest(es.drop_first())
    }
}

/// Canonical JSON serialization of a model value, as UTF-8 bytes.
pub open spec fn cjson(v: JsonVal) -> Seq<u8>
    decreases v, 0int,
{
    match v {
        JsonVal::Null => seq![110u8, 117u8, 108u8, 108u8],
        JsonVal::Bool(b) => if b {
            seq![116u8, 114u8, 117u8, 101u8]
        } else {
            seq![102u8, 97u8, 108u8, 115u8, 101u8]
        },
        JsonVal::Int(i) => dec_bytes(i),
        JsonVal::Text(s) => cjson_string(s),
        JsonVal::Array(es) => seq![91u8] + cjson_items(es) + seq![93u8],
        JsonVal::Object(fs) => seq![123u8] + cjson_members(fs) + seq![125u8],
    }
}

} // verus!

// --- appended: serializer and equality ---

verus! {

/// Appending a byte to string content appends its escape to the escaped form.
pub proof fn lemma_esc_snoc(bs: Seq<u8>, b: u8)
    ensures
        esc(bs.push(b)) == esc(bs) + esc1(b),
    decreases bs.len(),
{
    if bs.len() == 0 {
        assert(bs.push(b) =~= seq![b]);
        assert(seq![b].drop_first() =~= Seq::<u8>::empty());
        assert(esc(seq![b]) == esc1(b) + esc(Seq::<u8>::empty()));
        assert(esc(bs.push(b)) =~= esc(bs) + esc1(b));
    } else {
        let t = bs.drop_first();
        assert(bs.push(b)[0] == bs[0]);
        assert(bs.push(b).drop_first() =~= t.push(b));
        lemma_esc_snoc(t, b);
        assert(esc(bs.push(b)) == esc1(bs[0]) + esc(t.push(b)));
        assert(esc(bs) == esc1(bs[0]) + esc(t));
        assert(esc(bs.push(b)) =~= esc(bs) + esc1(b));
    }
}

/// Appending an item to a non-empty tail appends a comma and its bytes.
pub proof fn lemma_items_rest_snoc(es: Seq<JsonVal>, e: JsonVal)
    ensures
        cjson_items_rest(es.push(e)) == cjson_items_rest(es) + seq![44u8] + cjson(e),
    decreases es.len(),
{
    if es.len() == 0 {
        assert(es.push(e) =~= seq![e]);
        assert(seq![e].drop_first() =~= Seq::<JsonVal>::empty());
        assert(cjson_items_rest(seq![e]) == seq![44u8] + cjson(e) + cjson_items_rest(
            Seq::<JsonVal>::empty(),
        ));
        assert(cjson_items_rest(es.push(e)) =~= cjson_items_rest(es) + seq![44u8] + cjson(e));
    } else {
        let t = es.drop_first();
        assert(es.push(e)[0] == es[0]);
        assert(es.push(e).drop_first() =~= t.push(e));
        lemma_items_rest_snoc(t, e);
        assert(cjson_items_rest(es.push(e)) == seq![44u8] + cjson(es[0]) + cjson_items_rest(
            t.push(e),
        ));
        assert(cjson_items_rest(es) == seq![44u8] + cjson(es[0]) + cjson_items_rest(t));
        assert(cjson_items_rest(es.push(e)) =~= cjson_items_rest(es) + seq![44u8] + cjson(e));
    }
}

/// Appending an item to an array body appends a comma (if needed) and its bytes.
pub proof fn lemma_items_snoc(es: Seq<JsonVal>, e: JsonVal)
    ensures
        cjson_items(es.push(e)) == if es.len() == 0 {
            cjson(e)
        } else {
            cjson_items(es) + seq![44u8] + cjson(e)
        },
{
    if es.len() == 0 {
        assert(es.push(e)[0] == e);
        assert(es.push(e).drop_first() =~= Seq::<JsonVal>::empty());
        assert(cjson_items(es.push(e)) =~= cjson(e));
    } else {
        assert(es.push(e)[0] == es[0]);
        assert(es.push(e).drop_first() =~= es.drop_first().push(e));
        lemma_items_rest_snoc(es.drop_first(), e);
        assert(cjson_items(es.push(e)) =~= cjson_items(es) + seq![44u8] + cjson(e));
    }
}

/// Appending a member to a non-empty tail appends a comma and its bytes.
pub proof fn lemma_members_rest_snoc(fs: Seq<(Seq<char>, JsonVal)>, f: (Seq<char>, JsonVal))
    ensures
        cjson_members_rest(fs.push(f)) == cjson_members_rest(fs) + seq![44u8] + cjson_member(
            f.0,
            f.1,
        ),
    decreases fs.len(),
{
    if fs.len() == 0 {
        assert(fs.push(f) =~= seq![f]);
        assert(seq![f].drop_first() =~= Seq::<(Seq<char>, JsonVal)>::empty());
        assert(cjson_members_rest(seq![f]) == seq![44u8] + cjson_member(f.0, f.1)
            + cjson_members_rest(Seq::<(Seq<char>, JsonVal)>::empty()));
        assert(cjson_members_rest(fs.push(f)) =~= cjson_members_rest(fs) + seq![44u8]
            + cjson_member(f.0, f.1));
    } else {
        let t = fs.drop_first();
        assert(fs.push(f)[0] == fs[0]);
        assert(fs.push(f).drop_first() =~= t.push(f));
        lemma_members_rest_snoc(t, f);
        assert(cjson_members_rest(fs.push(f)) == seq![44u8] + cjson_member(fs[0].0, fs[0].1)
            + cjson_members_rest(t.push(f)));
        assert(cjson_members_rest(fs) == seq![44u8] + cjson_member(fs[0].0, fs[0].1)
            + cjson_members_rest(t));
        assert(cjson_members_rest(fs.push(f)) =~= cjson_members_rest(fs) + seq![44u8]
            + cjson_member(f.0, f.1));
    }
}

/// Appending a member to an object body appends a comma (if needed) and its bytes.
pub proof fn lemma_members_snoc(fs: Seq<(Seq<char>, JsonVal)>, f: (Seq<char>, JsonVal))
    ensures
        cjson_members(fs.push(f)) == if fs.len() == 0 {
            cjson_member(f.0, f.1)
        } else {
            cjson_members(fs) + seq![44u8] + cjson_member(f.0, f.1)
        },
{
    if fs.len() == 0 {
        assert(fs.push(f)[0] == f);
        assert(fs.push(f).drop_first() =~= Seq::<(Seq<char>, JsonVal)>::empty());
        assert(cjson_members(fs.push(f)) =~= cjson_member(f.0, f.1));
    } else {
        assert(fs.push(f)[0] == fs[0]);
        assert(fs.push(f).drop_first() =~= fs.drop_first().push(f));
        lemma_members_rest_snoc(fs.drop_first(), f);
        assert(cjson_members(fs.push(f)) =~= cjson_members(fs) + seq![44u8] + cjson_member(
            f.0,
            f.1,
        ));
    }
}

/// Lowercase hexadecimal digit of a value below 16.
fn hex_digit_exec(x: u8) -> (r: u8)
    requires
        x < 16,
    ensures
        r == hex_digit(x as int),
{
    if x < 10 {
        48 + x
    } else {
        87 + x
    }
}

/// Writes the canonical decimal digits of `n`.
fn write_dec_u(n: u64, out: &mut Vec<u8>)
    ensures
        final(out)@ == old(out)@ + dec_u(n as int),
    decreases n,
{
    if n < 10 {
        out.push(48 + n as u8);
        assert(out@ =~= old(out)@ + dec_u(n as int));
    } else {
        write_dec_u(n / 10, out);
        out.push(48 + (n % 10) as u8);
        assert(out@ =~= old(out)@ + dec_u(n as int));
    }
}

/// Writes the canonical decimal notation of `i`.
fn write_int(i: i64, out: &mut Vec<u8>)
    ensures
        final(out)@ == old(out)@ + dec_bytes(i as int),
{
    if i >= 0 {
        write_dec_u(i as u64, out);
    } else {
        out.push(45);
        let m: u64 = ((-(i + 1)) as u64) + 1;
        assert(m as int == -(i as int));
        write_dec_u(m, out);
        assert(out@ =~= old(out)@ + dec_bytes(i as int));
    }
}

/// Writes a quoted JSON string with canonical escapes.
fn write_string(s: &String, out: &mut Vec<u8>)
    ensures
        final(out)@ == old(out)@ + cjson_string(s@),
{
    let bytes = s.as_str().as_bytes_vec();
    assert(bytes@ == encode_utf8(s@));
    out.push(34);
    let mut j: usize = 0;
    while j < bytes.len()
        invariant
            j <= bytes.len(),
            bytes@ == encode_utf8(s@),
            out@ == old(out)@ + seq![34u8] + esc(bytes@.take(j as int)),
        decreases bytes.len() - j,
    {
        let b = bytes[j];
        let ghost prefix = bytes@.take(j as int);
        if b == 34 {
            out.push(92);
            out.push(34);
        } else if b == 92 {
            out.push(92);
            out.push(92);
        } else if b == 8 {
            out.push(92);
            out.push(98);
        } else if b == 9 {
            out.push(92);
            out.push(116);
        } else if b == 10 {
            out.push(92);
            out.push(110);
        } else if b == 12 {
            out.push(92);
            out.push(102);
        } else if b == 13 {
            out.push(92);
            out.push(114);
        } else if b < 32 {
            out.push(92);
            out.push(117);
            out.push(48);
            out.push(48);
            out.push(hex_digit_exec(b / 16));
            out.push(hex_digit_exec(b % 16));
        } else {
            out.push(b);
        }
        proof {
            lemma_esc_snoc(prefix, b);
            assert(bytes@.take(j as int + 1) =~= prefix.push(b));
            assert(out@ =~= old(out)@ + seq![34u8] + esc(bytes@.take(j as int + 1)));
        }
        j += 1;
    }
    out.push(34);
    proof {
        assert(bytes@.take(bytes@.len() as int) =~= bytes@);
        assert(out@ =~= old(out)@ + cjson_string(s@));
    }
}

/// Writes the canonical JSON bytes of a well-formed value.
#[verifier::loop_isolation(false)]
#[verifier::rlimit(60)]
pub fn write_json(v: &JsonValue, out: &mut Vec<u8>)
    requires
        wf_jval(jval(*v)),
    ensures
        final(out)@ == old(out)@ + cjson(jval(*v)),
    decreases *v,
{
    match v {
        JsonValue::Null => {
            out.push(110);
            out.push(117);
            out.push(108);
            out.push(108);
            assert(out@ =~= old(out)@ + cjson(jval(*v)));
        },
        JsonValue::Bool(b) => {
            if *b {
                out.push(116);
                out.push(114);
                out.push(117);
                out.push(101);
            } else {
                out.push(102);
                out.push(97);
                out.push(108);
                out.push(115);
                out.push(101);
            }
            assert(out@ =~= old(out)@ + cjson(jval(*v)));
        },
        JsonValue::Int(i) => {
            write_int(*i, out);
        },
        JsonValue::Text(s) => {
            write_string(s, out);
        },
        JsonValue::Array(elems) => {
            let ghost es = jval_seq(elems@);
            proof {
                lemma_jval_seq_len(elems@);
            }
            out.push(91);
            let mut i: usize = 0;
            while i < elems.len()
                invariant
                    i <= elems.len(),
                    out@ == old(out)@ + seq![91u8] + if i == 0 {
                        Seq::<u8>::empty()
                    } else {
                        cjson_items(es.take(i as int))
                    },
                decreases elems.len() - i,
            {
                proof {
                    lemma_jval_seq_index(elems@, i as int);
                    assert(jval(*v) == JsonVal::Array(es));
                    lemma_arr_wf_element(es, i as int);
                }
                if i > 0 {
                    out.push(44);
                }
                write_json(&elems[i], out);
                proof {
                    lemma_items_snoc(es.take(i as int), es[i as int]);
                    assert(es.take(i as int + 1) =~= es.take(i as int).push(es[i as int]));
                    assert(out@ =~= old(out)@ + seq![91u8] + cjson_items(es.take(i as int + 1)));
                }
                i += 1;
            }
            out.push(93);
            proof {
                assert(es.take(es.len() as int) =~= es);
                assert(out@ =~= old(out)@ + cjson(jval(*v)));
            }
        },
        JsonValue::Object(members) => {
            let ghost fs = jval_fields(members@);
            proof {
                lemma_jval_fields_len(members@);
            }
            out.push(123);
            let mut i: usize = 0;
            while i < members.len()
                invariant
                    i <= members.len(),
                    out@ == old(out)@ + seq![123u8] + if i == 0 {
                        Seq::<u8>::empty()
                    } else {
                        cjson_members(fs.take(i as int))
                    },
                decreases members.len() - i,
            {
                proof {
                    lemma_jval_fields_index(members@, i as int);
                    assert(jval(*v) == JsonVal::Object(fs));
                    lemma_obj_wf_member(fs, i as int);
                    assert(fs[i as int].1 == jval(members@[i as int].1));
                }
                if i > 0 {
                    out.push(44);
                }
                write_string(&members[i].0, out);
                out.push(58);
                write_json(&members[i].1, out);
                proof {
                    lemma_members_snoc(fs.take(i as int), fs[i as int]);
                    assert(fs.take(i as int + 1) =~= fs.take(i as int).push(fs[i as int]));
                    assert(out@ =~= old(out)@ + seq![123u8] + cjson_members(
                        fs.take(i as int + 1),
                    ));
                }
                i += 1;
            }
            out.push(125);
            proof {
                assert(fs.take(fs.len() as int) =~= fs);
                assert(out@ =~= old(out)@ + cjson(jval(*v)));
            }
        },
    }
}

/// Canonical JSON bytes of a well-formed value.
pub fn to_canonical_bytes(v: &JsonValue) -> (r: Vec<u8>)
    requires
        wf_jval(jval(*v)),
    ensures
        r@ == cjson(jval(*v)),
{
    let mut out: Vec<u8> = Vec::new();
    write_json(v, &mut out);
    out
}

} // verus!

verus! {

/// An executable value and its model are built from corresponding variants.
pub proof fn lemma_jval_variant(v: JsonValue)
    ensures
        (v is Null <==> jval(v) is Null),
        (v is Bool <==> jval(v) is Bool),
        (v is Int <==> jval(v) is Int),
        (v is Text <==> jval(v) is Text),
        (v is Array <==> jval(v) is Array),
        (v is Object <==> jval(v) is Object),
{
    match v {
        JsonValue::Null => {},
        JsonValue::Bool(_) => {},
        JsonValue::Int(_) => {},
        JsonValue::Text(_) => {},
        JsonValue::Array(_) => {},
        JsonValue::Object(_) => {},
    }
}

/// Structural equality of two JSON values: true exactly when their models are
/// equal. This is the equality the commitment scheme's precondition speaks of.
#[verifier::loop_isolation(false)]
pub fn json_eq(a: &JsonValue, b: &JsonValue) -> (r: bool)
    ensures
        r <==> jval(*a) == jval(*b),
    decreases *a,
{
    match (a, b) {
        (JsonValue::Null, JsonValue::Null) => true,
        (JsonValue::Bool(x), JsonValue::Bool(y)) => *x == *y,
        (JsonValue::Int(x), JsonValue::Int(y)) => *x == *y,
        (JsonValue::Text(x), JsonValue::Text(y)) => *x == *y,
        (JsonValue::Array(xs), JsonValue::Array(ys)) => {
            proof {
                lemma_jval_seq_len(xs@);
                lemma_jval_seq_len(ys@);
            }
            if xs.len() != ys.len() {
                false
            } else {
                let mut i: usize = 0;
                while i < xs.len()
                    invariant
                        i <= xs.len(),
                        forall|j: int|
                            0 <= j < i ==> #[trigger] jval_seq(xs@)[j] == jval_seq(ys@)[j],
                    decreases xs.len() - i,
                {
                    let e = json_eq(&xs[i], &ys[i]);
                    proof {
                        lemma_jval_seq_index(xs@, i as int);
                        lemma_jval_seq_index(ys@, i as int);
                    }
                    if !e {
                        proof {
                            assert(jval_seq(xs@)[i as int] != jval_seq(ys@)[i as int]);
                        }
                        return false;
                    }
                    i += 1;
                }
                proof {
                    assert(jval_seq(xs@) =~= jval_seq(ys@));
                }
                true
            }
        },
        (JsonValue::Object(xs), JsonValue::Object(ys)) => {
            proof {
                lemma_jval_fields_len(xs@);
                lemma_jval_fields_len(ys@);
            }
            if xs.len() != ys.len() {
                false
            } else {
                let mut i: usize = 0;
                while i < xs.len()
                    invariant
                        i <= xs.len(),
                        forall|j: int|
                            0 <= j < i ==> #[trigger] jval_fields(xs@)[j] == jval_fields(ys@)[j],
                    decreases xs.len() - i,
                {
                    let keys_equal = xs[i].0 == ys[i].0;
                    proof {
                        lemma_jval_fields_index(xs@, i as int);
                        lemma_jval_fields_index(ys@, i as int);
                    }
                    if !keys_equal {
                        proof {
                            assert(jval_fields(xs@)[i as int] != jval_fields(ys@)[i as int]);
                        }
                        return false;
                    }
                    let e = json_eq(&xs[i].1, &ys[i].1);
                    if !e {
                        proof {
                            assert(jval_fields(xs@)[i as int] != jval_fields(ys@)[i as int]);
                        }
                        return false;
                    }
                    i += 1;
                }
                proof {
                    assert(jval_fields(xs@) =~= jval_fields(ys@));
                }
                true
            }
        },
        _ => {
            proof {
                lemma_jval_variant(*a);
                lemma_jval_variant(*b);
            }
            false
        },
    }
}

} // verus!

verus! {

/// Byte sequences agreeing below position `i` and differing there are ordered
/// by the bytes at `i`.
pub proof fn lemma_bytes_lt_at(a: Seq<u8>, b: Seq<u8>, i: int)
    requires
        0 <= i < a.len(),
        i < b.len(),
        forall|j: int| 0 <= j < i ==> a[j] == b[j],
        a[i] < b[i],
    ensures
        bytes_lt(a, b),
    decreases i,
{
    if i > 0 {
        lemma_bytes_lt_at(a.drop_first(), b.drop_first(), i - 1);
    }
}

/// ASCII keys agreeing below position `i` and differing there are ordered by
/// the characters at `i`.
pub proof fn lemma_key_lt_ascii(a: Seq<char>, b: Seq<char>, i: int)
    requires
        vstd::utf8::is_ascii_chars(a),
        vstd::utf8::is_ascii_chars(b),
        0 <= i < a.len(),
        i < b.len(),
        forall|j: int| 0 <= j < i ==> a[j] == b[j],
        (a[i] as u32) < (b[i] as u32),
    ensures
        key_lt(a, b),
{
    vstd::utf8::is_ascii_chars_encode_utf8(a);
    vstd::utf8::is_ascii_chars_encode_utf8(b);
    assert forall|j: int| 0 <= j < i implies encode_utf8(a)[j] == encode_utf8(b)[j] by {
        assert(a[j] == b[j]);
    }
    assert(encode_utf8(a)[i] == a[i] as u8);
    assert(encode_utf8(b)[i] == b[i] as u8);
    assert(encode_utf8(a)[i] < encode_utf8(b)[i]);
    lemma_bytes_lt_at(encode_utf8(a), encode_utf8(b), i);
}

} // verus!

verus! {

/// Deep copy of a JSON value: the copy has the same model.
#[verifier::loop_isolation(false)]
pub fn json_clone(v: &JsonValue) -> (r: JsonValue)
    ensures
        jval(r) == jval(*v),
    decreases *v,
{
    match v {
        JsonValue::Null => JsonValue::Null,
        JsonValue::Bool(b) => JsonValue::Bool(*b),
        JsonValue::Int(i) => JsonValue::Int(*i),
        JsonValue::Text(s) => JsonValue::Text(s.clone()),
        JsonValue::Array(xs) => {
            let mut out: Vec<JsonValue> = Vec::new();
            let mut i: usize = 0;
            while i < xs.len()
                invariant
                    i <= xs.len(),
                    out@.len() == i,
                    forall|j: int| 0 <= j < i ==> jval(#[trigger] out@[j]) == jval(xs@[j]),
                decreases xs.len() - i,
            {
                out.push(json_clone(&xs[i]));
                i += 1;
            }
            let r = JsonValue::Array(out);
            proof {
                lemma_jval_seq_len(out@);
                lemma_jval_seq_len(xs@);
                assert forall|j: int| 0 <= j < out@.len() implies #[trigger] jval_seq(out@)[j]
                    == jval_seq(xs@)[j] by {
                    lemma_jval_seq_index(out@, j);
                    lemma_jval_seq_index(xs@, j);
                }
                assert(jval_seq(out@) =~= jval_seq(xs@));
            }
            r
        },
        JsonValue::Object(xs) => {
            let mut out: Vec<(String, JsonValue)> = Vec::new();
            let mut i: usize = 0;
            while i < xs.len()
                invariant
                    i <= xs.len(),
                    out@.len() == i,
                    forall|j: int|
                        0 <= j < i ==> (#[trigger] out@[j]).0@ == xs@[j].0@ && jval(out@[j].1)
                            == jval(xs@[j].1),
                decreases xs.len() - i,
            {
                out.push((xs[i].0.clone(), json_clone(&xs[i].1)));
                i += 1;
            }
            let r = JsonValue::Object(out);
            proof {
                lemma_jval_fields_len(out@);
                lemma_jval_fields_len(xs@);
                assert forall|j: int| 0 <= j < out@.len() implies #[trigger] jval_fields(out@)[j]
                    == jval_fields(xs@)[j] by {
                    lemma_jval_fields_index(out@, j);
                    lemma_jval_fields_index(xs@, j);
                }
                assert(jval_fields(out@) =~= jval_fields(xs@));
            }
            r
        },
    }
}

/// The canonical key order is transitive.
pub proof fn lemma_bytes_lt_trans(a: Seq<u8>, b: Seq<u8>, c: Seq<u8>)
    requires
        bytes_lt(a, b),
        bytes_lt(b, c),
    ensures
        bytes_lt(a, c),
    decreases a.len(),
{
    if a.len() == 0 {
    } else {
        if a[0] == b[0] && b[0] == c[0] {
            lemma_bytes_lt_trans(a.drop_first(), b.drop_first(), c.drop_first());
        }
    }
}

/// Keys sorted pair by pair are sorted overall.
pub proof fn lemma_key_lt_span(fs: Seq<(Seq<char>, JsonVal)>, i: int, j: int)
    requires
        forall|k: int| 0 <= k < fs.len() - 1 ==> key_lt(#[trigger] fs[k].0, fs[k + 1].0),
        0 <= i < j < fs.len(),
    ensures
        key_lt(fs[i].0, fs[j].0),
    decreases j - i,
{
    if j == i + 1 {
        assert(key_lt(fs[i].0, fs[i + 1].0));
    } else {
        lemma_key_lt_span(fs, i, j - 1);
        assert(key_lt(fs[j - 1].0, fs[j].0));
        lemma_bytes_lt_trans(
            encode_utf8(fs[i].0),
            encode_utf8(fs[j - 1].0),
            encode_utf8(fs[j].0),
        );
    }
}

/// Each element of a well-formed array is well formed.
pub proof fn lemma_arr_wf_element(es: Seq<JsonVal>, i: int)
    requires
        wf_jval(JsonVal::Array(es)),
        0 <= i < es.len(),
    ensures
        wf_jval(es[i]),
{
    let v = JsonVal::Array(es);
    assert(wf_jval(v));
    assert(v->Array_0 == es);
    assert(wf_jval(v->Array_0[i]));
}

/// Each member value of a well-formed object is well formed.
pub proof fn lemma_obj_wf_member(fs: Seq<(Seq<char>, JsonVal)>, i: int)
    requires
        wf_jval(JsonVal::Object(fs)),
        0 <= i < fs.len(),
    ensures
        wf_jval(fs[i].1),
{
    let v = JsonVal::Object(fs);
    assert(wf_jval(v));
    assert(v->Object_0 == fs);
    assert(wf_jval(v->Object_0[i].1));
}

/// An object whose members are well formed and whose keys ascend pair by pair
/// is well formed.
pub proof fn lemma_obj_wf(fs: Seq<(Seq<char>, JsonVal)>)
    requires
        forall|k: int| 0 <= k < fs.len() ==> wf_jval(#[trigger] fs[k].1),
        forall|k: int| 0 <= k < fs.len() - 1 ==> key_lt(#[trigger] fs[k].0, fs[k + 1].0),
    ensures
        wf_jval(JsonVal::Object(fs)),
{
    assert forall|i: int, j: int| 0 <= i < j < fs.len() implies key_lt(
        #[trigger] fs[i].0,
        #[trigger] fs[j].0,
    ) by {
        lemma_key_lt_span(fs, i, j);
    }
}

} // verus!

verus! {

/// Compares two strings for equality of their characters.
pub fn str_eq_chars(a: &str, b: &str) -> (r: bool)
    ensures
        r == (a@ == b@),
{
    let x = a.to_owned();
    let y = b.to_owned();
    x == y
}

} // verus!

verus! {

/// Any two byte sequences are ordered or equal.
pub proof fn lemma_bytes_trichotomy(a: Seq<u8>, b: Seq<u8>)
    ensures
        bytes_lt(a, b) || bytes_lt(b, a) || a == b,
    decreases a.len(),
{
    if a.len() == 0 && b.len() == 0 {
        assert(a =~= b);
    } else if a.len() > 0 && b.len() > 0 {
        if a[0] == b[0] {
            lemma_bytes_trichotomy(a.drop_first(), b.drop_first());
            if a.drop_first() == b.drop_first() {
                assert(a.len() == b.len());
                assert forall|j: int| 0 <= j < a.len() implies a[j] == b[j] by {
                    if j > 0 {
                        assert(a.drop_first()[j - 1] == b.drop_first()[j - 1]);
                    }
                }
                assert(a =~= b);
            }
        }
    }
}

/// Keys that are neither equal nor ascending are descending.
pub proof fn lemma_key_trichotomy(a: Seq<char>, b: Seq<char>)
    ensures
        key_lt(a, b) || key_lt(b, a) || a == b,
{
    broadcast use vstd::utf8::encode_utf8_decode_utf8;

    lemma_bytes_trichotomy(encode_utf8(a), encode_utf8(b));
    if encode_utf8(a) == encode_utf8(b) {
        assert(vstd::utf8::decode_utf8(encode_utf8(a)) == a);
        assert(vstd::utf8::decode_utf8(encode_utf8(b)) == b);
    }
}

} // verus!

verus! {

/// The keys of a well-formed object ascend between any two positions.
pub proof fn lemma_obj_wf_key_lt(fs: Seq<(Seq<char>, JsonVal)>, i: int, j: int)
    requires
        wf_jval(JsonVal::Object(fs)),
        0 <= i < j < fs.len(),
    ensures
        key_lt(fs[i].0, fs[j].0),
{
    let v = JsonVal::Object(fs);
    assert(wf_jval(v));
    assert(v->Object_0 == fs);
    assert(key_lt(v->Object_0[i].0, v->Object_0[j].0));
}

} // verus!

verus! {

/// Checks canonical well-formedness: 64-bit integers hold by construction, so
/// this checks that every object's keys strictly ascend.
#[verifier::loop_isolation(false)]
pub fn wf_check(v: &JsonValue) -> (r: bool)
    ensures
        r == wf_jval(jval(*v)),
    decreases *v,
{
    match v {
        JsonValue::Null => true,
        JsonValue::Bool(_) => true,
        JsonValue::Int(_) => true,
        JsonValue::Text(_) => true,
        JsonValue::Array(elems) => {
            let ghost es = jval_seq(elems@);
            proof {
                lemma_jval_seq_len(elems@);
            }
            let mut i: usize = 0;
            while i < elems.len()
                invariant
                    i <= elems.len(),
                    forall|j: int| 0 <= j < i ==> wf_jval(#[trigger] es[j]),
                decreases elems.len() - i,
            {
                proof {
                    lemma_jval_seq_index(elems@, i as int);
                }
                if !wf_check(&elems[i]) {
                    proof {
                        assert(!wf_jval(es[i as int]));
                        if wf_jval(JsonVal::Array(es)) {
                            lemma_arr_wf_element(es, i as int);
                        }
                    }
                    return false;
                }
                i += 1;
            }
            proof {
                assert forall|j: int| 0 <= j < es.len() implies wf_jval(#[trigger] es[j]) by {}
            }
            true
        },
        JsonValue::Object(members) => {
            let ghost fs = jval_fields(members@);
            proof {
                lemma_jval_fields_len(members@);
            }
            let mut i: usize = 0;
            while i < members.len()
                invariant
                    i <= members.len(),
                    forall|j: int| 0 <= j < i ==> wf_jval((#[trigger] fs[j]).1),
                    forall|j: int| 0 < j < i ==> key_lt((#[trigger] fs[j - 1]).0, fs[j].0),
                decreases members.len() - i,
            {
                proof {
                    lemma_jval_fields_index(members@, i as int);
                }
                if !wf_check(&members[i].1) {
                    proof {
                        assert(!wf_jval(fs[i as int].1));
                        if wf_jval(JsonVal::Object(fs)) {
                            lemma_obj_wf_member(fs, i as int);
                        }
                    }
                    return false;
                }
                if i > 0 {
                    proof {
                        lemma_jval_fields_index(members@, i as int - 1);
                    }
                    let prev = members[i - 1].0.as_str().as_bytes_vec();
                    let cur = members[i].0.as_str().as_bytes_vec();
                    if !crate::parse::bytes_less(&prev, &cur) {
                        proof {
                            assert(!key_lt(fs[i as int - 1].0, fs[i as int].0));
                            if wf_jval(JsonVal::Object(fs)) {
                                lemma_obj_wf_key_lt(fs, i as int - 1, i as int);
                            }
                        }
                        return false;
                    }
                }
                i += 1;
            }
            proof {
                assert forall|a: int, b: int| 0 <= a < b < fs.len() implies key_lt(
                    (#[trigger] fs[a]).0,
                    (#[trigger] fs[b]).0,
                ) by {
                    lemma_key_lt_span(fs, a, b);
                }
                assert(wf_jval(JsonVal::Object(fs)));
            }
            true
        },
    }
}

/// The canonical JSON text of a value: exactly when the value is well formed
/// and its canonical bytes are valid UTF-8, the text carrying those bytes.
pub fn to_canonical_string_opt(v: &JsonValue) -> (r: Option<String>)
    ensures
        r is Some <==> wf_jval(jval(*v)) && vstd::utf8::valid_utf8(cjson(jval(*v))),
        match r {
            Option::Some(s) => wf_jval(jval(*v)) && encode_utf8(s@) == cjson(jval(*v)),
            Option::None => true,
        },
{
    if !wf_check(v) {
        return Option::None;
    }
    let bytes = to_canonical_bytes(v);
    let r = crate::encoding::string_from_utf8(bytes);
    proof {
        broadcast use vstd::utf8::encode_utf8_valid_utf8;

        if r is Some {
            assert(vstd::utf8::valid_utf8(cjson(jval(*v))));
        }
    }
    r
}

} // verus!

verus! {

/// Escaping splits at any position of the content.
pub proof fn lemma_esc_split(bs: Seq<u8>, k: int)
    requires
        0 <= k <= bs.len(),
    ensures
        esc(bs) == esc(bs.take(k)) + esc(bs.skip(k)),
    decreases k,
{
    if k == 0 {
        assert(bs.take(0) =~= Seq::<u8>::empty());
        assert(bs.skip(0) =~= bs);
        assert(esc(bs) =~= esc(bs.take(0)) + esc(bs.skip(0)));
    } else {
        lemma_esc_split(bs.drop_first(), k - 1);
        assert(bs.drop_first().take(k - 1) =~= bs.take(k).drop_first());
        assert(bs.drop_first().skip(k - 1) =~= bs.skip(k));
        assert(bs.take(k).len() > 0);
        assert(bs.take(k)[0] == bs[0]);
        assert(esc(bs.take(k)) == esc1(bs[0]) + esc(bs.take(k).drop_first()));
        assert(esc(bs) == esc1(bs[0]) + esc(bs.drop_first()));
        assert(esc(bs) =~= esc(bs.take(k)) + esc(bs.skip(k)));
    }
}

/// An item list splits after any nonempty prefix.
pub proof fn lemma_items_split(es: Seq<JsonVal>, k: int)
    requires
        1 <= k <= es.len(),
    ensures
        cjson_items(es) == cjson_items(es.take(k)) + cjson_items_rest(es.skip(k)),
    decreases k,
{
    if k == 1 {
        assert(es.take(1)[0] == es[0]);
        assert(es.take(1).drop_first() =~= Seq::<JsonVal>::empty());
        assert(cjson_items(es.take(1)) =~= cjson(es[0]));
        assert(es.drop_first() =~= es.skip(1));
        assert(cjson_items(es) =~= cjson_items(es.take(1)) + cjson_items_rest(es.skip(1)));
    } else {
        lemma_items_split(es, k - 1);
        assert(es.skip(k - 1).len() > 0);
        assert(es.skip(k - 1)[0] == es[k - 1]);
        assert(es.skip(k - 1).drop_first() =~= es.skip(k));
        assert(cjson_items_rest(es.skip(k - 1)) == seq![44u8] + cjson(es[k - 1])
            + cjson_items_rest(es.skip(k)));
        lemma_items_snoc(es.take(k - 1), es[k - 1]);
        assert(es.take(k - 1).push(es[k - 1]) =~= es.take(k));
        assert(cjson_items(es) =~= cjson_items(es.take(k)) + cjson_items_rest(es.skip(k)));
    }
}

/// A member list splits after any nonempty prefix.
pub proof fn lemma_members_split(fs: Seq<(Seq<char>, JsonVal)>, k: int)
    requires
        1 <= k <= fs.len(),
    ensures
        cjson_members(fs) == cjson_members(fs.take(k)) + cjson_members_rest(fs.skip(k)),
    decreases k,
{
    if k == 1 {
        assert(fs.take(1)[0] == fs[0]);
        assert(fs.take(1).drop_first() =~= Seq::<(Seq<char>, JsonVal)>::empty());
        assert(cjson_members(fs.take(1)) =~= cjson_member(fs[0].0, fs[0].1));
        assert(fs.drop_first() =~= fs.skip(1));
        assert(cjson_members(fs) =~= cjson_members(fs.take(1)) + cjson_members_rest(fs.skip(1)));
    } else {
        lemma_members_split(fs, k - 1);
        assert(fs.skip(k - 1).len() > 0);
        assert(fs.skip(k - 1)[0] == fs[k - 1]);
        assert(fs.skip(k - 1).drop_first() =~= fs.skip(k));
        assert(cjson_members_rest(fs.skip(k - 1)) == seq![44u8] + cjson_member(
            fs[k - 1].0,
            fs[k - 1].1,
        ) + cjson_members_rest(fs.skip(k)));
        lemma_members_snoc(fs.take(k - 1), fs[k - 1]);
        assert(fs.take(k - 1).push(fs[k - 1]) =~= fs.take(k));
        assert(cjson_members(fs) =~= cjson_members(fs.take(k)) + cjson_members_rest(fs.skip(k)));
    }
}

} // verus!
