//! Uniqueness of the canonical form: two well-formed values with the same
//! canonical bytes are equal. Together with the parser's soundness this pins
//! the round trip down — parsing canonical text can only return the value
//! that produced it.

use vstd::prelude::*;
use vstd::utf8::encode_utf8;

use crate::json::{
    cjson, cjson_items, cjson_items_rest, cjson_members, cjson_members_rest, cjson_string,
    dec_bytes, dec_u, esc, esc1, hex_digit, lemma_arr_wf_element, lemma_obj_wf_member, wf_jval,
    JsonVal,
};

verus! {

/// Delimiter bytes that may follow a value inside canonical text.
pub open spec fn is_delim(b: u8) -> bool {
    b == 44 || b == 58 || b == 93 || b == 125
}

/// Empty, or headed by a delimiter.
pub open spec fn delim_headed(s: Seq<u8>) -> bool {
    s.len() == 0 || is_delim(s[0])
}

/// Empty, or headed by anything but a decimal digit. A delimiter-headed tail
/// qualifies.
pub open spec fn nondigit_headed(s: Seq<u8>) -> bool {
    s.len() == 0 || !(48 <= s[0] <= 57)
}

/// Equally long prefixes of equal concatenations are equal, as are the tails.
pub(crate) proof fn lemma_concat_cancel(x: Seq<u8>, y: Seq<u8>, s: Seq<u8>, t: Seq<u8>)
    requires
        x + s == y + t,
        x.len() == y.len(),
    ensures
        x == y,
        s == t,
{
    assert((x + s).len() == x.len() + s.len());
    assert((y + t).len() == y.len() + t.len());
    assert forall|i: int| 0 <= i < x.len() implies x[i] == y[i] by {
        assert((x + s)[i] == x[i]);
        assert((y + t)[i] == y[i]);
    }
    assert(x =~= y);
    assert(s.len() == t.len());
    assert forall|i: int| 0 <= i < s.len() implies s[i] == t[i] by {
        assert((x + s)[x.len() + i] == s[i]);
        assert((y + t)[y.len() + i] == t[i]);
    }
    assert(s =~= t);
}

/// The digits of a non-negative number: at least one byte, all decimal.
pub(crate) proof fn lemma_dec_u_digits(n: int)
    requires
        n >= 0,
    ensures
        dec_u(n).len() >= 1,
        forall|i: int| 0 <= i < dec_u(n).len() ==> 48 <= #[trigger] dec_u(n)[i] <= 57,
    decreases n,
{
    if n >= 10 {
        lemma_dec_u_digits(n / 10);
    }
}

/// A number of two or more digits is at least ten.
proof fn lemma_dec_u_len2(n: int)
    requires
        n >= 10,
    ensures
        dec_u(n).len() >= 2,
{
    lemma_dec_u_digits(n / 10);
}

/// A positive number's notation does not start with a zero digit.
pub(crate) proof fn lemma_dec_u_first_nonzero(n: int)
    requires
        n >= 1,
    ensures
        dec_u(n)[0] != 48,
    decreases n,
{
    if n >= 10 {
        lemma_dec_u_first_nonzero(n / 10);
        assert(dec_u(n)[0] == dec_u(n / 10)[0]);
    }
}

/// A value whose digits extend a prefix's digits by at least one more digit
/// is at least ten times the prefix's value plus that digit.
pub(crate) proof fn lemma_dec_prefix_bound(m: int, a: int, rest: Seq<u8>)
    requires
        m >= 0,
        a >= 0,
        dec_u(m) == dec_u(a) + rest,
        rest.len() > 0,
    ensures
        10 * a + (rest[0] - 48) <= m,
    decreases rest.len(),
{
    lemma_dec_u_digits(m);
    lemma_dec_u_digits(a);
    assert((dec_u(a) + rest).len() == dec_u(a).len() + rest.len());
    assert(m >= 10) by {
        if m < 10 {
            assert(dec_u(m).len() == 1);
        }
    }
    let d = dec_u(m).last();
    assert(dec_u(m) == dec_u(m / 10) + seq![(48 + m % 10) as u8]);
    if rest.len() == 1 {
        assert(dec_u(m).drop_last() =~= dec_u(m / 10));
        assert(dec_u(m).drop_last() =~= dec_u(a));
        lemma_dec_u_inj(m / 10, a);
        assert(rest[0] == (dec_u(a) + rest)[dec_u(a).len() as int]);
        assert(rest[0] == (48 + m % 10) as u8);
        assert(10 * a + (rest[0] - 48) == m) by {
            vstd::arithmetic::div_mod::lemma_fundamental_div_mod(m, 10);
        }
    } else {
        assert(dec_u(m).drop_last() =~= dec_u(m / 10));
        assert((dec_u(a) + rest).drop_last() =~= dec_u(a) + rest.drop_last());
        assert(dec_u(m / 10) =~= dec_u(a) + rest.drop_last());
        lemma_dec_prefix_bound(m / 10, a, rest.drop_last());
        assert(rest.drop_last()[0] == rest[0]);
        assert(48 <= rest[0] <= 57) by {
            assert(rest[0] == dec_u(m)[dec_u(a).len() as int]);
        }
        assert(10 * a + (rest[0] - 48) <= m / 10);
        assert(m / 10 <= m) by {
            vstd::arithmetic::div_mod::lemma_fundamental_div_mod(m, 10);
        }
    }
}

/// Equal digit notations name equal numbers.
pub(crate) proof fn lemma_dec_u_inj(a: int, b: int)
    requires
        a >= 0,
        b >= 0,
        dec_u(a) == dec_u(b),
    ensures
        a == b,
    decreases a,
{
    lemma_dec_u_digits(a);
    lemma_dec_u_digits(b);
    if a < 10 && b < 10 {
        assert(dec_u(a) == seq![(48 + a) as u8]);
        assert(dec_u(b) == seq![(48 + b) as u8]);
        assert(seq![(48 + a) as u8][0] == (48 + a) as u8);
        assert(seq![(48 + b) as u8][0] == (48 + b) as u8);
        assert(dec_u(a)[0] == dec_u(b)[0]);
        assert((48 + a) as u8 == (48 + b) as u8);
        assert(48 + a < 256 && 48 + b < 256);
        assert(a == b);
    } else if a < 10 {
        lemma_dec_u_len2(b);
        assert(dec_u(a).len() == 1);
    } else if b < 10 {
        lemma_dec_u_len2(a);
        assert(dec_u(b).len() == 1);
    } else {
        let da = dec_u(a / 10) + seq![(48 + a % 10) as u8];
        let db = dec_u(b / 10) + seq![(48 + b % 10) as u8];
        assert(dec_u(a) == da);
        assert(dec_u(b) == db);
        assert(da.len() == dec_u(a / 10).len() + 1);
        assert(db.len() == dec_u(b / 10).len() + 1);
        assert(da[da.len() - 1] == (48 + a % 10) as u8);
        assert(db[db.len() - 1] == (48 + b % 10) as u8);
        assert((48 + a % 10) as u8 == (48 + b % 10) as u8);
        assert(a % 10 == b % 10);
        assert(dec_u(a).drop_last() =~= dec_u(a / 10));
        assert(dec_u(b).drop_last() =~= dec_u(b / 10));
        lemma_dec_u_inj(a / 10, b / 10);
        vstd::arithmetic::div_mod::lemma_fundamental_div_mod(a, 10);
        vstd::arithmetic::div_mod::lemma_fundamental_div_mod(b, 10);
    }
}

/// Extension property of non-negative notations: equal up to a delimiter
/// means equal numbers and equal tails.
proof fn lemma_dec_u_ext(a: int, b: int, s: Seq<u8>, t: Seq<u8>)
    requires
        a >= 0,
        b >= 0,
        dec_u(a) + s == dec_u(b) + t,
        nondigit_headed(s),
        nondigit_headed(t),
    ensures
        a == b,
        s == t,
{
    lemma_dec_u_digits(a);
    lemma_dec_u_digits(b);
    assert((dec_u(a) + s).len() == dec_u(a).len() + s.len());
    assert((dec_u(b) + t).len() == dec_u(b).len() + t.len());
    if dec_u(a).len() < dec_u(b).len() {
        assert(s.len() > t.len());
        assert(s.len() > 0);
        assert(s[0] == (dec_u(a) + s)[dec_u(a).len() as int]);
        assert((dec_u(b) + t)[dec_u(a).len() as int] == dec_u(b)[dec_u(a).len() as int]);
        assert(48 <= s[0] <= 57);
        assert(false);
    } else if dec_u(b).len() < dec_u(a).len() {
        assert(t.len() > s.len());
        assert(t.len() > 0);
        assert(t[0] == (dec_u(b) + t)[dec_u(b).len() as int]);
        assert((dec_u(a) + s)[dec_u(b).len() as int] == dec_u(a)[dec_u(b).len() as int]);
        assert(48 <= t[0] <= 57);
        assert(false);
    } else {
        lemma_concat_cancel(dec_u(a), dec_u(b), s, t);
        lemma_dec_u_inj(a, b);
    }
}

/// Extension property of integer notations.
pub(crate) proof fn lemma_number_ext(i: int, j: int, s: Seq<u8>, t: Seq<u8>)
    requires
        dec_bytes(i) + s == dec_bytes(j) + t,
        nondigit_headed(s),
        nondigit_headed(t),
    ensures
        i == j,
        s == t,
{
    if i < 0 && j < 0 {
        assert(dec_bytes(i) + s =~= seq![45u8] + (dec_u(-i) + s));
        assert(dec_bytes(j) + t =~= seq![45u8] + (dec_u(-j) + t));
        lemma_concat_cancel(seq![45u8], seq![45u8], dec_u(-i) + s, dec_u(-j) + t);
        lemma_dec_u_ext(-i, -j, s, t);
    } else if i < 0 {
        lemma_dec_u_digits(-i);
        lemma_dec_u_digits(j);
        assert((dec_bytes(i) + s)[0] == 45);
        assert((dec_bytes(j) + t)[0] == dec_u(j)[0]);
        assert(false);
    } else if j < 0 {
        lemma_dec_u_digits(i);
        lemma_dec_u_digits(-j);
        assert((dec_bytes(i) + s)[0] == dec_u(i)[0]);
        assert((dec_bytes(j) + t)[0] == 45);
        assert(false);
    } else {
        lemma_dec_u_ext(i, j, s, t);
    }
}

/// The first byte of one escaped unit: never a quote, and a backslash exactly
/// for the escaped characters.
pub(crate) proof fn lemma_esc1_first(b: u8)
    ensures
        esc1(b).len() >= 1,
        esc1(b)[0] != 34,
        (esc1(b)[0] == 92) == (b == 34 || b == 92 || b < 32),
        esc1(b)[0] == 92 || esc1(b)[0] == b,
{
}

/// Lowercase hexadecimal digits are distinct.
proof fn lemma_hex_digit_inj(x: int, y: int)
    requires
        0 <= x < 16,
        0 <= y < 16,
        hex_digit(x) == hex_digit(y),
    ensures
        x == y,
{
}

/// Extension property of escaped string content up to the closing quote.
proof fn lemma_esc_ext(a: Seq<u8>, b: Seq<u8>, s: Seq<u8>, t: Seq<u8>)
    requires
        esc(a) + seq![34u8] + s == esc(b) + seq![34u8] + t,
    ensures
        a == b,
        s == t,
    decreases a.len(),
{
    if a.len() == 0 && b.len() == 0 {
        assert(esc(a) + seq![34u8] + s =~= seq![34u8] + s);
        assert(esc(b) + seq![34u8] + t =~= seq![34u8] + t);
        lemma_concat_cancel(seq![34u8], seq![34u8], s, t);
        assert(a =~= b);
    } else if a.len() == 0 {
        lemma_esc1_first(b[0]);
        assert((esc(a) + seq![34u8] + s)[0] == 34);
        assert(esc(b) == esc1(b[0]) + esc(b.drop_first()));
        assert((esc(b) + seq![34u8] + t)[0] == esc1(b[0])[0]);
        assert(false);
    } else if b.len() == 0 {
        lemma_esc1_first(a[0]);
        assert((esc(b) + seq![34u8] + t)[0] == 34);
        assert(esc(a) == esc1(a[0]) + esc(a.drop_first()));
        assert((esc(a) + seq![34u8] + s)[0] == esc1(a[0])[0]);
        assert(false);
    } else {
        let a0 = a[0];
        let b0 = b[0];
        lemma_esc1_first(a0);
        lemma_esc1_first(b0);
        assert(esc(a) == esc1(a0) + esc(a.drop_first()));
        assert(esc(b) == esc1(b0) + esc(b.drop_first()));
        assert(esc(a) + seq![34u8] + s =~= esc1(a0) + (esc(a.drop_first()) + seq![34u8] + s));
        assert(esc(b) + seq![34u8] + t =~= esc1(b0) + (esc(b.drop_first()) + seq![34u8] + t));
        assert((esc1(a0) + (esc(a.drop_first()) + seq![34u8] + s))[0] == esc1(a0)[0]);
        assert((esc1(b0) + (esc(b.drop_first()) + seq![34u8] + t))[0] == esc1(b0)[0]);
        assert(esc1(a0)[0] == esc1(b0)[0]);
        if esc1(a0)[0] != 92 {
            assert(a0 == b0);
            assert(esc1(a0).len() == esc1(b0).len());
            lemma_concat_cancel(
                esc1(a0),
                esc1(b0),
                esc(a.drop_first()) + seq![34u8] + s,
                esc(b.drop_first()) + seq![34u8] + t,
            );
            lemma_esc_ext(a.drop_first(), b.drop_first(), s, t);
            assert(a.len() == b.len());
            assert forall|j: int| 0 <= j < a.len() implies a[j] == b[j] by {
                if j > 0 {
                    assert(a.drop_first()[j - 1] == b.drop_first()[j - 1]);
                }
            }
            assert(a =~= b);
        } else {
            // Both escaped: the second byte tells the two-character escapes
            // apart, and the hex digits pin the \u00xx form down.
            assert(esc1(a0).len() >= 2 && esc1(b0).len() >= 2);
            assert((esc1(a0) + (esc(a.drop_first()) + seq![34u8] + s))[1] == esc1(a0)[1]);
            assert((esc1(b0) + (esc(b.drop_first()) + seq![34u8] + t))[1] == esc1(b0)[1]);
            assert(esc1(a0)[1] == esc1(b0)[1]);
            if esc1(a0)[1] == 117 {
                assert(esc1(a0).len() == 6 && esc1(b0).len() == 6);
                assert((esc1(a0) + (esc(a.drop_first()) + seq![34u8] + s))[4] == esc1(a0)[4]);
                assert((esc1(b0) + (esc(b.drop_first()) + seq![34u8] + t))[4] == esc1(b0)[4]);
                assert((esc1(a0) + (esc(a.drop_first()) + seq![34u8] + s))[5] == esc1(a0)[5]);
                assert((esc1(b0) + (esc(b.drop_first()) + seq![34u8] + t))[5] == esc1(b0)[5]);
                assert(esc1(a0)[4] == esc1(b0)[4] && esc1(a0)[5] == esc1(b0)[5]);
                lemma_hex_digit_inj(a0 as int / 16, b0 as int / 16);
                lemma_hex_digit_inj(a0 as int % 16, b0 as int % 16);
                assert(a0 == b0);
            } else {
                assert(a0 == b0);
            }
            lemma_concat_cancel(
                esc1(a0),
                esc1(b0),
                esc(a.drop_first()) + seq![34u8] + s,
                esc(b.drop_first()) + seq![34u8] + t,
            );
            lemma_esc_ext(a.drop_first(), b.drop_first(), s, t);
            assert(a.len() == b.len());
            assert forall|j: int| 0 <= j < a.len() implies a[j] == b[j] by {
                if j > 0 {
                    assert(a.drop_first()[j - 1] == b.drop_first()[j - 1]);
                }
            }
            assert(a =~= b);
        }
    }
}

/// Extension property of quoted strings.
pub(crate) proof fn lemma_string_ext(x: Seq<char>, y: Seq<char>, s: Seq<u8>, t: Seq<u8>)
    requires
        cjson_string(x) + s == cjson_string(y) + t,
    ensures
        x == y,
        s == t,
{
    broadcast use vstd::utf8::encode_utf8_decode_utf8;

    assert(cjson_string(x) + s =~= seq![34u8] + (esc(encode_utf8(x)) + seq![34u8] + s));
    assert(cjson_string(y) + t =~= seq![34u8] + (esc(encode_utf8(y)) + seq![34u8] + t));
    lemma_concat_cancel(
        seq![34u8],
        seq![34u8],
        esc(encode_utf8(x)) + seq![34u8] + s,
        esc(encode_utf8(y)) + seq![34u8] + t,
    );
    lemma_esc_ext(encode_utf8(x), encode_utf8(y), s, t);
    assert(vstd::utf8::decode_utf8(encode_utf8(x)) == x);
    assert(vstd::utf8::decode_utf8(encode_utf8(y)) == y);
}

/// The canonical bytes of a value are nonempty, and their first byte names
/// the variant's class.
pub(crate) proof fn lemma_cjson_first(v: JsonVal)
    ensures
        cjson(v).len() >= 1,
        match v {
            JsonVal::Null => cjson(v)[0] == 110,
            JsonVal::Bool(b) => cjson(v)[0] == (if b { 116u8 } else { 102u8 }),
            JsonVal::Int(i) => cjson(v)[0] == 45 || 48 <= cjson(v)[0] <= 57,
            JsonVal::Text(_) => cjson(v)[0] == 34,
            JsonVal::Array(_) => cjson(v)[0] == 91,
            JsonVal::Object(_) => cjson(v)[0] == 123,
        },
{
    match v {
        JsonVal::Int(i) => {
            if i < 0 {
                assert(cjson(v)[0] == 45);
            } else {
                lemma_dec_u_digits(i);
                assert(cjson(v)[0] == dec_u(i)[0]);
            }
        },
        _ => {},
    }
}

} // verus!

verus! {

/// A nonempty item tail is a comma followed by the items.
proof fn lemma_items_rest_unfold(es: Seq<JsonVal>)
    requires
        es.len() > 0,
    ensures
        cjson_items_rest(es) == seq![44u8] + cjson_items(es),
{
    assert(cjson_items_rest(es) =~= seq![44u8] + cjson_items(es));
}

/// A nonempty member tail is a comma followed by the members.
proof fn lemma_members_rest_unfold(fs: Seq<(Seq<char>, JsonVal)>)
    requires
        fs.len() > 0,
    ensures
        cjson_members_rest(fs) == seq![44u8] + cjson_members(fs),
{
    assert(cjson_members_rest(fs) =~= seq![44u8] + cjson_members(fs));
}

/// Extension property of whole values: equal canonical bytes up to a
/// delimiter mean equal values and equal tails.
pub(crate) proof fn lemma_cjson_ext(u: JsonVal, w: JsonVal, s: Seq<u8>, t: Seq<u8>)
    requires
        wf_jval(u),
        wf_jval(w),
        cjson(u) + s == cjson(w) + t,
        delim_headed(s),
        delim_headed(t),
    ensures
        u == w,
        s == t,
    decreases u, 0int,
{
    lemma_cjson_first(u);
    lemma_cjson_first(w);
    assert((cjson(u) + s)[0] == cjson(u)[0]);
    assert((cjson(w) + t)[0] == cjson(w)[0]);
    assert(cjson(u)[0] == cjson(w)[0]);
    match u {
        JsonVal::Null => match w {
            JsonVal::Null => {
                lemma_concat_cancel(cjson(u), cjson(w), s, t);
            },
            _ => {
                assert(false);
            },
        },
        JsonVal::Bool(x) => match w {
            JsonVal::Bool(y) => {
                assert(x == y);
                lemma_concat_cancel(cjson(u), cjson(w), s, t);
            },
            _ => {
                assert(false);
            },
        },
        JsonVal::Int(i) => match w {
            JsonVal::Int(j) => {
                lemma_number_ext(i, j, s, t);
            },
            _ => {
                assert(false);
            },
        },
        JsonVal::Text(x) => match w {
            JsonVal::Text(y) => {
                lemma_string_ext(x, y, s, t);
            },
            _ => {
                assert(false);
            },
        },
        JsonVal::Array(es1) => match w {
            JsonVal::Array(es2) => {
                assert(cjson(u) + s =~= seq![91u8] + (cjson_items(es1) + seq![93u8] + s));
                assert(cjson(w) + t =~= seq![91u8] + (cjson_items(es2) + seq![93u8] + t));
                lemma_concat_cancel(
                    seq![91u8],
                    seq![91u8],
                    cjson_items(es1) + seq![93u8] + s,
                    cjson_items(es2) + seq![93u8] + t,
                );
                lemma_items_ext(es1, es2, s, t);
            },
            _ => {
                assert(false);
            },
        },
        JsonVal::Object(fs1) => match w {
            JsonVal::Object(fs2) => {
                assert(cjson(u) + s =~= seq![123u8] + (cjson_members(fs1) + seq![125u8] + s));
                assert(cjson(w) + t =~= seq![123u8] + (cjson_members(fs2) + seq![125u8] + t));
                lemma_concat_cancel(
                    seq![123u8],
                    seq![123u8],
                    cjson_members(fs1) + seq![125u8] + s,
                    cjson_members(fs2) + seq![125u8] + t,
                );
                lemma_members_ext(fs1, fs2, s, t);
            },
            _ => {
                assert(false);
            },
        },
    }
}

/// Extension property of comma-separated items up to the closing bracket.
proof fn lemma_items_ext(es1: Seq<JsonVal>, es2: Seq<JsonVal>, s: Seq<u8>, t: Seq<u8>)
    requires
        wf_jval(JsonVal::Array(es1)),
        wf_jval(JsonVal::Array(es2)),
        cjson_items(es1) + seq![93u8] + s == cjson_items(es2) + seq![93u8] + t,
        delim_headed(s),
        delim_headed(t),
    ensures
        es1 == es2,
        s == t,
    decreases es1, 2int,
{
    if es1.len() == 0 && es2.len() == 0 {
        assert(cjson_items(es1) + seq![93u8] + s =~= seq![93u8] + s);
        assert(cjson_items(es2) + seq![93u8] + t =~= seq![93u8] + t);
        lemma_concat_cancel(seq![93u8], seq![93u8], s, t);
        assert(es1 =~= es2);
    } else if es1.len() == 0 {
        lemma_cjson_first(es2[0]);
        assert(cjson_items(es1) + seq![93u8] + s =~= seq![93u8] + s);
        assert((seq![93u8] + s)[0] == 93);
        assert(cjson_items(es2) + seq![93u8] + t =~= cjson(es2[0]) + (cjson_items_rest(
            es2.drop_first(),
        ) + seq![93u8] + t));
        assert((cjson(es2[0]) + (cjson_items_rest(es2.drop_first()) + seq![93u8] + t))[0]
            == cjson(es2[0])[0]);
        assert(false);
    } else if es2.len() == 0 {
        lemma_cjson_first(es1[0]);
        assert(cjson_items(es2) + seq![93u8] + t =~= seq![93u8] + t);
        assert((seq![93u8] + t)[0] == 93);
        assert(cjson_items(es1) + seq![93u8] + s =~= cjson(es1[0]) + (cjson_items_rest(
            es1.drop_first(),
        ) + seq![93u8] + s));
        assert((cjson(es1[0]) + (cjson_items_rest(es1.drop_first()) + seq![93u8] + s))[0]
            == cjson(es1[0])[0]);
        assert(false);
    } else {
        let a0 = es1[0];
        let b0 = es2[0];
        lemma_arr_wf_element(es1, 0);
        lemma_arr_wf_element(es2, 0);
        let ra = cjson_items_rest(es1.drop_first()) + seq![93u8] + s;
        let rb = cjson_items_rest(es2.drop_first()) + seq![93u8] + t;
        assert(cjson_items(es1) + seq![93u8] + s =~= cjson(a0) + ra);
        assert(cjson_items(es2) + seq![93u8] + t =~= cjson(b0) + rb);
        assert(delim_headed(ra)) by {
            if es1.drop_first().len() == 0 {
                assert(ra =~= seq![93u8] + s);
            } else {
                lemma_items_rest_unfold(es1.drop_first());
                assert(ra =~= seq![44u8] + (cjson_items(es1.drop_first()) + seq![93u8] + s));
            }
        }
        assert(delim_headed(rb)) by {
            if es2.drop_first().len() == 0 {
                assert(rb =~= seq![93u8] + t);
            } else {
                lemma_items_rest_unfold(es2.drop_first());
                assert(rb =~= seq![44u8] + (cjson_items(es2.drop_first()) + seq![93u8] + t));
            }
        }
        lemma_cjson_ext(a0, b0, ra, rb);
        if es1.drop_first().len() == 0 && es2.drop_first().len() == 0 {
            assert(ra =~= seq![93u8] + s);
            assert(rb =~= seq![93u8] + t);
            lemma_concat_cancel(seq![93u8], seq![93u8], s, t);
            assert(es1 =~= es2);
        } else if es1.drop_first().len() == 0 {
            lemma_items_rest_unfold(es2.drop_first());
            assert(ra =~= seq![93u8] + s);
            assert(rb =~= seq![44u8] + (cjson_items(es2.drop_first()) + seq![93u8] + t));
            assert(ra[0] == 93 && rb[0] == 44);
            assert(false);
        } else if es2.drop_first().len() == 0 {
            lemma_items_rest_unfold(es1.drop_first());
            assert(rb =~= seq![93u8] + t);
            assert(ra =~= seq![44u8] + (cjson_items(es1.drop_first()) + seq![93u8] + s));
            assert(ra[0] == 44 && rb[0] == 93);
            assert(false);
        } else {
            lemma_items_rest_unfold(es1.drop_first());
            lemma_items_rest_unfold(es2.drop_first());
            assert(ra =~= seq![44u8] + (cjson_items(es1.drop_first()) + seq![93u8] + s));
            assert(rb =~= seq![44u8] + (cjson_items(es2.drop_first()) + seq![93u8] + t));
            lemma_concat_cancel(
                seq![44u8],
                seq![44u8],
                cjson_items(es1.drop_first()) + seq![93u8] + s,
                cjson_items(es2.drop_first()) + seq![93u8] + t,
            );
            assert(wf_jval(JsonVal::Array(es1.drop_first()))) by {
                assert forall|j: int| 0 <= j < es1.drop_first().len() implies wf_jval(
                    #[trigger] es1.drop_first()[j],
                ) by {
                    lemma_arr_wf_element(es1, j + 1);
                }
            }
            assert(wf_jval(JsonVal::Array(es2.drop_first()))) by {
                assert forall|j: int| 0 <= j < es2.drop_first().len() implies wf_jval(
                    #[trigger] es2.drop_first()[j],
                ) by {
                    lemma_arr_wf_element(es2, j + 1);
                }
            }
            lemma_items_ext(es1.drop_first(), es2.drop_first(), s, t);
            assert(es1.len() == es2.len());
            assert forall|j: int| 0 <= j < es1.len() implies es1[j] == es2[j] by {
                if j > 0 {
                    assert(es1.drop_first()[j - 1] == es2.drop_first()[j - 1]);
                }
            }
            assert(es1 =~= es2);
        }
    }
}

/// Extension property of comma-separated members up to the closing brace.
#[verifier::rlimit(100)]
#[verifier::spinoff_prover]
proof fn lemma_members_ext(
    fs1: Seq<(Seq<char>, JsonVal)>,
    fs2: Seq<(Seq<char>, JsonVal)>,
    s: Seq<u8>,
    t: Seq<u8>,
)
    requires
        wf_jval(JsonVal::Object(fs1)),
        wf_jval(JsonVal::Object(fs2)),
        cjson_members(fs1) + seq![125u8] + s == cjson_members(fs2) + seq![125u8] + t,
        delim_headed(s),
        delim_headed(t),
    ensures
        fs1 == fs2,
        s == t,
    decreases fs1, 2int,
{
    if fs1.len() == 0 && fs2.len() == 0 {
        assert(cjson_members(fs1) + seq![125u8] + s =~= seq![125u8] + s);
        assert(cjson_members(fs2) + seq![125u8] + t =~= seq![125u8] + t);
        lemma_concat_cancel(seq![125u8], seq![125u8], s, t);
        assert(fs1 =~= fs2);
    } else if fs1.len() == 0 {
        assert(cjson_members(fs1) + seq![125u8] + s =~= seq![125u8] + s);
        assert((seq![125u8] + s)[0] == 125);
        assert(cjson_members(fs2) + seq![125u8] + t =~= seq![34u8] + (esc(
            encode_utf8(fs2[0].0),
        ) + seq![34u8] + (seq![58u8] + cjson(fs2[0].1) + (cjson_members_rest(fs2.drop_first())
            + seq![125u8] + t))));
        assert(false);
    } else if fs2.len() == 0 {
        assert(cjson_members(fs2) + seq![125u8] + t =~= seq![125u8] + t);
        assert((seq![125u8] + t)[0] == 125);
        assert(cjson_members(fs1) + seq![125u8] + s =~= seq![34u8] + (esc(
            encode_utf8(fs1[0].0),
        ) + seq![34u8] + (seq![58u8] + cjson(fs1[0].1) + (cjson_members_rest(fs1.drop_first())
            + seq![125u8] + s))));
        assert(false);
    } else {
        let ka = fs1[0].0;
        let kb = fs2[0].0;
        let va = fs1[0].1;
        let vb = fs2[0].1;
        lemma_obj_wf_member(fs1, 0);
        lemma_obj_wf_member(fs2, 0);
        let ra = cjson_members_rest(fs1.drop_first()) + seq![125u8] + s;
        let rb = cjson_members_rest(fs2.drop_first()) + seq![125u8] + t;
        assert(cjson_members(fs1) + seq![125u8] + s =~= cjson_string(ka) + (seq![58u8] + cjson(
            va,
        ) + ra));
        assert(cjson_members(fs2) + seq![125u8] + t =~= cjson_string(kb) + (seq![58u8] + cjson(
            vb,
        ) + rb));
        lemma_string_ext(ka, kb, seq![58u8] + cjson(va) + ra, seq![58u8] + cjson(vb) + rb);
        assert(seq![58u8] + cjson(va) + ra =~= seq![58u8] + (cjson(va) + ra));
        assert(seq![58u8] + cjson(vb) + rb =~= seq![58u8] + (cjson(vb) + rb));
        lemma_concat_cancel(seq![58u8], seq![58u8], cjson(va) + ra, cjson(vb) + rb);
        assert(delim_headed(ra)) by {
            if fs1.drop_first().len() == 0 {
                assert(ra =~= seq![125u8] + s);
            } else {
                lemma_members_rest_unfold(fs1.drop_first());
                assert(ra =~= seq![44u8] + (cjson_members(fs1.drop_first()) + seq![125u8] + s));
            }
        }
        assert(delim_headed(rb)) by {
            if fs2.drop_first().len() == 0 {
                assert(rb =~= seq![125u8] + t);
            } else {
                lemma_members_rest_unfold(fs2.drop_first());
                assert(rb =~= seq![44u8] + (cjson_members(fs2.drop_first()) + seq![125u8] + t));
            }
        }
        lemma_cjson_ext(va, vb, ra, rb);
        if fs1.drop_first().len() == 0 && fs2.drop_first().len() == 0 {
            assert(ra =~= seq![125u8] + s);
            assert(rb =~= seq![125u8] + t);
            lemma_concat_cancel(seq![125u8], seq![125u8], s, t);
            assert(fs1 =~= fs2);
        } else if fs1.drop_first().len() == 0 {
            lemma_members_rest_unfold(fs2.drop_first());
            assert(ra =~= seq![125u8] + s);
            assert(rb =~= seq![44u8] + (cjson_members(fs2.drop_first()) + seq![125u8] + t));
            assert(ra[0] == 125 && rb[0] == 44);
            assert(false);
        } else if fs2.drop_first().len() == 0 {
            lemma_members_rest_unfold(fs1.drop_first());
            assert(rb =~= seq![125u8] + t);
            assert(ra =~= seq![44u8] + (cjson_members(fs1.drop_first()) + seq![125u8] + s));
            assert(ra[0] == 44 && rb[0] == 125);
            assert(false);
        } else {
            lemma_members_rest_unfold(fs1.drop_first());
            lemma_members_rest_unfold(fs2.drop_first());
            assert(ra =~= seq![44u8] + (cjson_members(fs1.drop_first()) + seq![125u8] + s));
            assert(rb =~= seq![44u8] + (cjson_members(fs2.drop_first()) + seq![125u8] + t));
            lemma_concat_cancel(
                seq![44u8],
                seq![44u8],
                cjson_members(fs1.drop_first()) + seq![125u8] + s,
                cjson_members(fs2.drop_first()) + seq![125u8] + t,
            );
            assert(wf_jval(JsonVal::Object(fs1.drop_first()))) by {
                assert forall|j: int| 0 <= j < fs1.drop_first().len() implies wf_jval(
                    (#[trigger] fs1.drop_first()[j]).1,
                ) by {
                    lemma_obj_wf_member(fs1, j + 1);
                }
                assert forall|a: int, b: int|
                    0 <= a < b < fs1.drop_first().len() implies crate::json::key_lt(
                    (#[trigger] fs1.drop_first()[a]).0,
                    (#[trigger] fs1.drop_first()[b]).0,
                ) by {
                    crate::json::lemma_obj_wf_key_lt(fs1, a + 1, b + 1);
                }
            }
            assert(wf_jval(JsonVal::Object(fs2.drop_first()))) by {
                assert forall|j: int| 0 <= j < fs2.drop_first().len() implies wf_jval(
                    (#[trigger] fs2.drop_first()[j]).1,
                ) by {
                    lemma_obj_wf_member(fs2, j + 1);
                }
                assert forall|a: int, b: int|
                    0 <= a < b < fs2.drop_first().len() implies crate::json::key_lt(
                    (#[trigger] fs2.drop_first()[a]).0,
                    (#[trigger] fs2.drop_first()[b]).0,
                ) by {
                    crate::json::lemma_obj_wf_key_lt(fs2, a + 1, b + 1);
                }
            }
            lemma_members_ext(fs1.drop_first(), fs2.drop_first(), s, t);
            assert(fs1.len() == fs2.len());
            assert forall|j: int| 0 <= j < fs1.len() implies fs1[j] == fs2[j] by {
                if j > 0 {
                    assert(fs1.drop_first()[j - 1] == fs2.drop_first()[j - 1]);
                }
            }
            assert(fs1 =~= fs2);
        }
    }
}

/// The canonical form determines the value: two well-formed values with the
/// same canonical bytes are equal. So parsing a value's canonical bytes can
/// only return that value: the parser promises that whatever it accepts
/// serializes back to its input, and this law leaves one such value.
pub proof fn lemma_canonical_unique(u: JsonVal, w: JsonVal)
    requires
        wf_jval(u),
        wf_jval(w),
        cjson(u) == cjson(w),
    ensures
        u == w,
{
    assert(cjson(u) + Seq::<u8>::empty() =~= cjson(u));
    assert(cjson(w) + Seq::<u8>::empty() =~= cjson(w));
    lemma_cjson_ext(u, w, Seq::empty(), Seq::empty());
}

} // verus!
