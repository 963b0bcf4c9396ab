//! A parser for canonical JSON bytes: it accepts exactly the canonical form
//! this crate's serializer emits — sorted keys, no whitespace, minimal
//! escapes and minimal integer notation. Whatever it accepts serializes back
//! to the very bytes it consumed, and whatever the serializer can emit it
//! accepts.

use vstd::prelude::*;
use vstd::utf8::encode_utf8;

use crate::encoding::string_from_utf8;
use crate::json::{
    bytes_lt, cjson, cjson_items, cjson_items_rest, cjson_member, cjson_members,
    cjson_members_rest, cjson_string, dec_bytes, dec_u, esc, esc1, hex_digit, jval, jval_fields, jval_seq, key_lt,
    lemma_arr_wf_element, lemma_esc_snoc, lemma_esc_split, lemma_items_snoc, lemma_items_split,
    lemma_jval_fields_index, lemma_jval_fields_len, lemma_jval_seq_index, lemma_jval_seq_len,
    lemma_members_snoc, lemma_members_split, lemma_obj_wf, lemma_obj_wf_key_lt,
    lemma_obj_wf_member, wf_jval, JsonVal, JsonValue,
};
use crate::uniqueness::{
    delim_headed, lemma_canonical_unique, lemma_cjson_first, lemma_dec_u_digits,
    lemma_dec_u_first_nonzero, lemma_dec_u_inj, lemma_dec_prefix_bound, lemma_esc1_first,
    lemma_number_ext, lemma_string_ext, nondigit_headed,
};

verus! {

/// A well-formed value's canonical bytes stand at position `i`, followed by
/// a delimiter or the end of the input.
pub open spec fn value_at(s: Seq<u8>, i: int, w: JsonVal) -> bool {
    &&& wf_jval(w)
    &&& 0 <= i
    &&& i + cjson(w).len() <= s.len()
    &&& s.subrange(i, i + cjson(w).len()) == cjson(w)
    &&& delim_headed(s.skip(i + cjson(w).len()))
}

/// A string's canonical bytes stand at position `i`. Strings end at their
/// closing quote, so no condition on what follows is needed.
pub open spec fn string_at(s: Seq<u8>, i: int, x: Seq<char>) -> bool {
    &&& 0 <= i
    &&& i + cjson_string(x).len() <= s.len()
    &&& s.subrange(i, i + cjson_string(x).len()) == cjson_string(x)
}

/// An integer's canonical bytes stand at position `i`, followed by anything
/// but a digit.
pub open spec fn number_at(s: Seq<u8>, i: int, n: int) -> bool {
    &&& i64::MIN <= n <= i64::MAX
    &&& 0 <= i
    &&& i + dec_bytes(n).len() <= s.len()
    &&& s.subrange(i, i + dec_bytes(n).len()) == dec_bytes(n)
    &&& nondigit_headed(s.skip(i + dec_bytes(n).len()))
}

/// At most one string can stand at a position.
proof fn lemma_string_at_unique(s: Seq<u8>, i: int, x: Seq<char>, y: Seq<char>)
    requires
        string_at(s, i, x),
        string_at(s, i, y),
    ensures
        x == y,
{
    assert(s.skip(i) =~= cjson_string(x) + s.skip(i + cjson_string(x).len() as int));
    assert(s.skip(i) =~= cjson_string(y) + s.skip(i + cjson_string(y).len() as int));
    lemma_string_ext(
        x,
        y,
        s.skip(i + cjson_string(x).len() as int),
        s.skip(i + cjson_string(y).len() as int),
    );
}

/// At most one integer can stand at a position.
proof fn lemma_number_at_unique(s: Seq<u8>, i: int, n: int, m: int)
    requires
        number_at(s, i, n),
        number_at(s, i, m),
    ensures
        n == m,
{
    assert(s.skip(i) =~= dec_bytes(n) + s.skip(i + dec_bytes(n).len() as int));
    assert(s.skip(i) =~= dec_bytes(m) + s.skip(i + dec_bytes(m).len() as int));
    lemma_number_ext(
        n,
        m,
        s.skip(i + dec_bytes(n).len() as int),
        s.skip(i + dec_bytes(m).len() as int),
    );
}

/// At most one well-formed value can stand at a position.
proof fn lemma_value_at_unique(s: Seq<u8>, i: int, w1: JsonVal, w2: JsonVal)
    requires
        value_at(s, i, w1),
        value_at(s, i, w2),
    ensures
        w1 == w2,
{
    assert(s.skip(i) =~= cjson(w1) + s.skip(i + cjson(w1).len() as int));
    assert(s.skip(i) =~= cjson(w2) + s.skip(i + cjson(w2).len() as int));
    crate::uniqueness::lemma_cjson_ext(
        w1,
        w2,
        s.skip(i + cjson(w1).len() as int),
        s.skip(i + cjson(w2).len() as int),
    );
}

/// Lexicographic comparison below a position of agreement reduces to the
/// suffixes.
proof fn lemma_bytes_lt_skip(a: Seq<u8>, b: Seq<u8>, k: int)
    requires
        0 <= k <= a.len(),
        k <= b.len(),
        forall|j: int| 0 <= j < k ==> a[j] == b[j],
    ensures
        bytes_lt(a, b) == bytes_lt(a.skip(k), b.skip(k)),
    decreases k,
{
    if k > 0 {
        assert(a.drop_first().skip(k - 1) =~= a.skip(k));
        assert(b.drop_first().skip(k - 1) =~= b.skip(k));
        lemma_bytes_lt_skip(a.drop_first(), b.drop_first(), k - 1);
    } else {
        assert(a.skip(0) =~= a);
        assert(b.skip(0) =~= b);
    }
}

/// Strict lexicographic order on byte vectors.
#[verifier::loop_isolation(false)]
pub(crate) fn bytes_less(a: &Vec<u8>, b: &Vec<u8>) -> (r: bool)
    ensures
        r == bytes_lt(a@, b@),
{
    let mut k: usize = 0;
    loop
        invariant
            k <= a.len(),
            k <= b.len(),
            forall|j: int| 0 <= j < k ==> a@[j] == b@[j],
        decreases a.len() - k,
    {
        proof {
            lemma_bytes_lt_skip(a@, b@, k as int);
        }
        if k == a.len() || k == b.len() {
            proof {
                if k == b.len() {
                    assert(b@.skip(k as int).len() == 0);
                } else {
                    assert(a@.skip(k as int).len() == 0);
                    assert(b@.skip(k as int).len() > 0);
                }
            }
            return k == a.len() && k < b.len();
        }
        let x = a[k];
        let y = b[k];
        if x != y {
            proof {
                assert(a@.skip(k as int)[0] == x);
                assert(b@.skip(k as int)[0] == y);
            }
            return x < y;
        }
        k += 1;
    }
}

/// Reads a quoted string with canonical escapes. The consumed bytes are
/// exactly the canonical form of the returned string, and any string whose
/// canonical form stands here is read in full.
#[verifier::loop_isolation(false)]
#[verifier::rlimit(100)]
#[verifier::spinoff_prover]
fn parse_string(s: &[u8], i: &mut usize) -> (r: Option<String>)
    requires
        *old(i) < s@.len(),
        s@[*old(i) as int] == 34,
    ensures
        *old(i) <= *final(i) <= s@.len(),
        match r {
            Option::Some(st) => *old(i) < *final(i) && s@.subrange(
                *old(i) as int,
                *final(i) as int,
            ) == cjson_string(st@),
            Option::None => true,
        },
        forall|x: Seq<char>|
            string_at(s@, *old(i) as int, x) ==> (r is Some && *final(i) == *old(i)
                + cjson_string(x).len()),
{
    let ghost start = *i as int;
    let ghost has_w = exists|x: Seq<char>| string_at(s@, start, x);
    let ghost wx: Seq<char> = if has_w {
        choose|x: Seq<char>| string_at(s@, start, x)
    } else {
        Seq::empty()
    };
    let ghost ex: Seq<u8> = encode_utf8(wx);
    proof {
        if has_w {
            assert(cjson_string(wx) == seq![34u8] + esc(ex) + seq![34u8]);
            assert(cjson_string(wx).len() == esc(ex).len() + 2);
            assert forall|j: int| 0 <= j < esc(ex).len() implies s@[start + 1 + j] == esc(ex)[j] by {
                assert(s@.subrange(start, start + cjson_string(wx).len() as int)[1 + j] == s@[start
                    + 1 + j]);
                assert(cjson_string(wx)[1 + j] == esc(ex)[j]);
            }
            assert(s@[start + 1 + esc(ex).len()] == 34) by {
                assert(s@.subrange(start, start + cjson_string(wx).len() as int)[esc(
                    ex,
                ).len() as int + 1] == s@[start + 1 + esc(ex).len()]);
                assert(cjson_string(wx)[esc(ex).len() as int + 1] == 34);
            }
        }
    }
    let end = s.len();
    *i += 1;
    let mut ub: Vec<u8> = Vec::new();
    loop
        invariant
            start < *i as int <= end == s@.len(),
            s@.subrange(start + 1, *i as int) == esc(ub@),
            has_w ==> ub@.len() <= ex.len() && ub@ == ex.take(ub@.len() as int),
        decreases s@.len() - *i,
    {
        let ghost k = ub@.len() as int;
        proof {
            assert(s@.subrange(start + 1, *i as int).len() == *i - start - 1);
            assert(*i as int == start + 1 + esc(ub@).len());
            if has_w {
                lemma_esc_split(ex, k);
                assert(esc(ex.take(k)) == esc(ub@));
                if k < ex.len() {
                    assert(ex.skip(k).len() > 0);
                    assert(ex.skip(k)[0] == ex[k]);
                    assert(esc(ex.skip(k)) == esc1(ex[k]) + esc(ex.skip(k).drop_first()));
                    lemma_esc1_first(ex[k]);
                    assert(esc(ex) =~= esc(ub@) + (esc1(ex[k]) + esc(ex.skip(k).drop_first())));
                    assert forall|j: int| 0 <= j < esc1(ex[k]).len() implies s@[*i + j] == esc1(
                        ex[k],
                    )[j] by {
                        assert(esc(ex)[esc(ub@).len() + j] == esc1(ex[k])[j]);
                        assert(s@[start + 1 + (esc(ub@).len() + j)] == esc(ex)[esc(ub@).len()
                            + j]);
                    }
                    assert(*i + esc1(ex[k]).len() <= start + 1 + esc(ex).len());
                    assert(start + 1 + esc(ex).len() < s@.len());
                } else {
                    assert(ub@ =~= ex);
                    assert(esc(ub@) == esc(ex));
                    assert(s@[*i as int] == 34);
                }
            }
        }
        if *i >= end {
            proof {
                if has_w {
                    assert(false);
                }
            }
            return Option::None;
        }
        let b = s[*i];
        if b == 34 {
            proof {
                if has_w && k < ex.len() {
                    assert(s@[*i as int] == esc1(ex[k])[0]);
                    assert(false);
                }
            }
            *i += 1;
            let ghost content = ub@;
            match string_from_utf8(ub) {
                Option::Some(st) => {
                    proof {
                        assert(encode_utf8(st@) == content);
                        assert(s@.subrange(start, *i as int) =~= seq![34u8] + s@.subrange(
                            start + 1,
                            *i as int - 1,
                        ) + seq![34u8]);
                        assert(s@.subrange(start, *i as int) == cjson_string(st@));
                        if has_w {
                            assert(*i as int == start + cjson_string(wx).len());
                        }
                        assert forall|x: Seq<char>| string_at(s@, start, x) implies *i as int
                            == start + cjson_string(x).len() by {
                            lemma_string_at_unique(s@, start, x, wx);
                        }
                    }
                    return Option::Some(st);
                },
                Option::None => {
                    proof {
                        broadcast use vstd::utf8::encode_utf8_valid_utf8;

                        if has_w {
                            assert(content =~= ex);
                            assert(vstd::utf8::valid_utf8(content));
                            assert(false);
                        }
                    }
                    return Option::None;
                },
            }
        } else if b == 92 {
            proof {
                if has_w {
                    assert(k < ex.len());
                    assert(esc1(ex[k])[0] == 92);
                    assert(ex[k] == 34 || ex[k] == 92 || ex[k] < 32);
                    assert(esc1(ex[k]).len() >= 2);
                }
            }
            if end - *i < 2 {
                proof {
                    if has_w {
                        assert(false);
                    }
                }
                return Option::None;
            }
            let e = s[*i + 1];
            proof {
                if has_w {
                    assert(s@[*i + 1] == esc1(ex[k])[1]);
                }
            }
            if e == 117 {
                // The six-byte form `\u00xx`, used for the control characters
                // without a named escape: lowercase hex, below 0x20.
                proof {
                    if has_w {
                        assert(ex[k] < 32 && ex[k] != 8 && ex[k] != 9 && ex[k] != 10 && ex[k]
                            != 12 && ex[k] != 13);
                        assert(esc1(ex[k]).len() == 6);
                    }
                }
                if end - *i < 6 {
                    proof {
                        if has_w {
                            assert(false);
                        }
                    }
                    return Option::None;
                }
                if s[*i + 2] != 48 || s[*i + 3] != 48 {
                    proof {
                        if has_w {
                            assert(s@[*i + 2] == esc1(ex[k])[2]);
                            assert(s@[*i + 3] == esc1(ex[k])[3]);
                            assert(false);
                        }
                    }
                    return Option::None;
                }
                let h1 = s[*i + 4];
                let h2 = s[*i + 5];
                proof {
                    if has_w {
                        assert(s@[*i + 4] == esc1(ex[k])[4]);
                        assert(s@[*i + 5] == esc1(ex[k])[5]);
                        assert(h1 == hex_digit(ex[k] as int / 16));
                        assert(h2 == hex_digit(ex[k] as int % 16));
                    }
                }
                let d1: u8 = if 48 <= h1 && h1 <= 57 {
                    h1 - 48
                } else if 97 <= h1 && h1 <= 102 {
                    h1 - 87
                } else {
                    proof {
                        if has_w {
                            assert(false);
                        }
                    }
                    return Option::None;
                };
                let d2: u8 = if 48 <= h2 && h2 <= 57 {
                    h2 - 48
                } else if 97 <= h2 && h2 <= 102 {
                    h2 - 87
                } else {
                    proof {
                        if has_w {
                            assert(false);
                        }
                    }
                    return Option::None;
                };
                let c2: u8 = d1 * 16 + d2;
                if c2 >= 32 || c2 == 8 || c2 == 9 || c2 == 10 || c2 == 12 || c2 == 13 {
                    proof {
                        if has_w {
                            assert(c2 == ex[k]);
                            assert(false);
                        }
                    }
                    return Option::None;
                }
                proof {
                    assert(c2 as int / 16 == d1 && c2 as int % 16 == d2) by (nonlinear_arith)
                        requires
                            c2 == d1 * 16 + d2,
                            0 <= d2 < 16,
                            0 <= d1 < 16,
                    ;
                    assert(hex_digit(c2 as int / 16) == h1);
                    assert(hex_digit(c2 as int % 16) == h2);
                    assert(esc1(c2) =~= seq![92u8, 117u8, 48u8, 48u8, h1, h2]);
                    lemma_esc_snoc(ub@, c2);
                    assert(s@.subrange(start + 1, *i as int + 6) =~= s@.subrange(
                        start + 1,
                        *i as int,
                    ) + seq![92u8, 117u8, 48u8, 48u8, h1, h2]);
                    if has_w {
                        assert(c2 == ex[k]);
                        assert(ub@.push(c2) =~= ex.take(k + 1));
                    }
                }
                ub.push(c2);
                *i += 6;
            } else {
                let c: u8 = if e == 34 {
                    34
                } else if e == 92 {
                    92
                } else if e == 98 {
                    8
                } else if e == 116 {
                    9
                } else if e == 110 {
                    10
                } else if e == 102 {
                    12
                } else if e == 114 {
                    13
                } else {
                    proof {
                        if has_w {
                            assert(false);
                        }
                    }
                    return Option::None;
                };
                proof {
                    lemma_esc_snoc(ub@, c);
                    assert(s@.subrange(start + 1, *i as int + 2) =~= s@.subrange(
                        start + 1,
                        *i as int,
                    ) + esc1(c));
                    if has_w {
                        assert(c == ex[k]);
                        assert(ub@.push(c) =~= ex.take(k + 1));
                    }
                }
                ub.push(c);
                *i += 2;
            }
        } else if b < 32 {
            proof {
                if has_w {
                    if k < ex.len() {
                        assert(s@[*i as int] == esc1(ex[k])[0]);
                        assert(esc1(ex[k])[0] == 92 || esc1(ex[k])[0] == ex[k]);
                        assert(esc1(ex[k])[0] >= 32 || esc1(ex[k])[0] == 92);
                    }
                    assert(false);
                }
            }
            return Option::None;
        } else {
            proof {
                lemma_esc_snoc(ub@, b);
                assert(s@.subrange(start + 1, *i as int + 1) =~= s@.subrange(start + 1, *i as int)
                    + esc1(b));
                if has_w {
                    assert(k < ex.len());
                    assert(s@[*i as int] == esc1(ex[k])[0]);
                    assert(b == ex[k]);
                    assert(ub@.push(b) =~= ex.take(k + 1));
                }
            }
            ub.push(b);
            *i += 1;
        }
    }
}

/// Reads a canonical integer. The consumed bytes are exactly its canonical
/// decimal notation, and any integer whose notation stands here, followed by
/// a non-digit, is read in full.
#[verifier::loop_isolation(false)]
#[verifier::rlimit(100)]
#[verifier::spinoff_prover]
fn parse_number(s: &[u8], i: &mut usize) -> (r: Option<i64>)
    requires
        *old(i) < s@.len(),
    ensures
        *old(i) <= *final(i) <= s@.len(),
        match r {
            Option::Some(v) => *old(i) < *final(i) && s@.subrange(
                *old(i) as int,
                *final(i) as int,
            ) == dec_bytes(v as int),
            Option::None => true,
        },
        forall|n: int|
            number_at(s@, *old(i) as int, n) ==> (r is Some && *final(i) == *old(i) + dec_bytes(
                n,
            ).len()),
{
    let ghost start = *i as int;
    let ghost has_w = exists|n: int| number_at(s@, start, n);
    let ghost wn: int = if has_w {
        choose|n: int| number_at(s@, start, n)
    } else {
        0
    };
    let ghost wabs: int = if wn < 0 {
        -wn
    } else {
        wn
    };
    proof {
        if has_w {
            lemma_dec_u_digits(wabs);
            assert forall|j: int| 0 <= j < dec_bytes(wn).len() implies s@[start + j] == dec_bytes(
                wn,
            )[j] by {
                assert(s@.subrange(start, start + dec_bytes(wn).len() as int)[j] == s@[start + j]);
            }
        }
    }
    let end = s.len();
    let neg = s[*i] == 45;
    proof {
        if has_w {
            if wn < 0 {
                assert(dec_bytes(wn)[0] == 45);
                assert(neg);
            } else {
                assert(dec_bytes(wn)[0] == dec_u(wn)[0]);
                assert(48 <= dec_bytes(wn)[0] <= 57);
                assert(!neg);
            }
        }
    }
    if neg {
        *i += 1;
    }
    if *i >= end {
        proof {
            if has_w {
                assert(false);
            }
        }
        return Option::None;
    }
    let d0 = s[*i];
    proof {
        if has_w {
            assert(dec_u(wabs).len() >= 1);
            if wn < 0 {
                assert(dec_bytes(wn) == seq![45u8] + dec_u(wabs));
                assert(d0 == dec_bytes(wn)[1]);
                assert(d0 == dec_u(wabs)[0]);
            } else {
                assert(d0 == dec_u(wabs)[0]);
            }
            assert(48 <= d0 <= 57);
        }
    }
    if !(48 <= d0 && d0 <= 57) {
        proof {
            if has_w {
                assert(false);
            }
        }
        return Option::None;
    }
    if d0 == 48 {
        // A leading zero stands alone, and "-0" has no canonical form.
        if neg {
            proof {
                if has_w {
                    if wn < 0 {
                        lemma_dec_u_first_nonzero(wabs);
                    }
                    assert(false);
                }
            }
            return Option::None;
        }
        *i += 1;
        proof {
            assert(s@.subrange(start, start + 1) =~= dec_bytes(0));
            if has_w {
                if wabs >= 1 {
                    lemma_dec_u_first_nonzero(wabs);
                }
                assert(wn == 0);
            }
            assert forall|n: int| number_at(s@, start, n) implies *i as int == start + dec_bytes(
                n,
            ).len() by {
                lemma_number_at_unique(s@, start, n, wn);
            }
        }
        return Option::Some(0i64);
    }
    let mut acc: u64 = (d0 - 48) as u64;
    *i += 1;
    let limit: u64 = if neg {
        9223372036854775808
    } else {
        9223372036854775807
    };
    proof {
        if has_w {
            assert(wabs <= limit);
        }
    }
    let ghost digits_start = start + (if neg {
        1int
    } else {
        0int
    });
    proof {
        assert(s@.subrange(digits_start, *i as int) =~= seq![d0]);
        assert(dec_u(acc as int) == s@.subrange(digits_start, *i as int));
        if has_w {
            assert(dec_u(wabs).take(1) =~= seq![d0]);
            assert(dec_u(acc as int) =~= dec_u(wabs).take(dec_u(acc as int).len() as int));
        }
    }
    while *i < end && 48 <= s[*i] && s[*i] <= 57
        invariant
            digits_start < *i as int <= end,
            1 <= acc <= limit,
            dec_u(acc as int) == s@.subrange(digits_start, *i as int),
            has_w ==> dec_u(acc as int).len() <= dec_u(wabs).len() && dec_u(acc as int) == dec_u(
                wabs,
            ).take(dec_u(acc as int).len() as int),
        decreases s@.len() - *i,
    {
        let d = s[*i] - 48;
        proof {
            if has_w {
                let cl = dec_u(acc as int).len() as int;
                if cl == dec_u(wabs).len() {
                    // The witness's digits are exhausted, so a digit cannot
                    // follow here.
                    assert(dec_u(acc as int) =~= dec_u(wabs));
                    assert(*i as int == digits_start + dec_u(wabs).len());
                    assert(*i as int == start + dec_bytes(wn).len());
                    assert(s@.skip(start + dec_bytes(wn).len() as int)[0] == s@[*i as int]);
                    assert(false);
                } else {
                    assert(dec_u(wabs) =~= dec_u(acc as int) + dec_u(wabs).skip(cl));
                    lemma_dec_prefix_bound(wabs, acc as int, dec_u(wabs).skip(cl));
                    assert(dec_u(wabs).skip(cl)[0] == dec_u(wabs)[cl]);
                    assert(dec_u(wabs)[cl] == dec_bytes(wn)[dec_bytes(wn).len() - dec_u(
                        wabs,
                    ).len() + cl]);
                    assert(s@[*i as int] == dec_u(wabs)[cl]);
                    assert(10 * (acc as int) + (s@[*i as int] - 48) <= wabs <= limit);
                }
            }
        }
        if acc > (limit - (d as u64)) / 10 {
            proof {
                if has_w {
                    assert(acc as int <= (limit - d) as int / 10) by (nonlinear_arith)
                        requires
                            10 * (acc as int) + (d as int) <= limit as int,
                            0 <= d < 10,
                            acc >= 1,
                    ;
                    assert(false);
                }
            }
            return Option::None;
        }
        proof {
            assert(acc * 10 + d <= limit) by (nonlinear_arith)
                requires
                    acc <= (limit - d) / 10,
                    0 <= d < 10,
                    limit >= 10,
                    acc >= 1,
            ;
            lemma_dec_u_snoc(acc as int, d as int);
            assert(s@.subrange(digits_start, *i as int + 1) =~= s@.subrange(
                digits_start,
                *i as int,
            ) + seq![s@[*i as int]]);
            if has_w {
                let cl = dec_u(acc as int).len() as int;
                assert(dec_u(acc as int * 10 + d) =~= dec_u(wabs).take(cl + 1));
            }
        }
        acc = acc * 10 + (d as u64);
        *i += 1;
    }
    proof {
        if has_w {
            let cl = dec_u(acc as int).len() as int;
            if cl < dec_u(wabs).len() {
                // The loop stopped, yet the witness has another digit here.
                assert(dec_u(wabs) =~= dec_u(acc as int) + dec_u(wabs).skip(cl));
                assert(dec_u(wabs).skip(cl)[0] == dec_u(wabs)[cl]);
                assert(48 <= dec_u(wabs)[cl] <= 57);
                assert(s@[*i as int] == dec_u(wabs)[cl]) by {
                    assert(dec_u(wabs)[cl] == dec_bytes(wn)[dec_bytes(wn).len() - dec_u(
                        wabs,
                    ).len() + cl]);
                }
                assert((*i as int) < start + dec_bytes(wn).len());
                assert(*i < end);
                assert(false);
            }
            assert(dec_u(acc as int) =~= dec_u(wabs));
            lemma_dec_u_inj(acc as int, wabs);
        }
    }
    if neg {
        let val: i64 = if acc == 9223372036854775808 {
            i64::MIN
        } else {
            -(acc as i64)
        };
        proof {
            assert(val as int == -(acc as int));
            assert(s@.subrange(start, *i as int) =~= seq![45u8] + s@.subrange(
                digits_start,
                *i as int,
            ));
            assert(s@.subrange(start, *i as int) == dec_bytes(val as int));
            assert forall|n: int| number_at(s@, start, n) implies *i as int == start + dec_bytes(
                n,
            ).len() by {
                lemma_number_at_unique(s@, start, n, wn);
            }
        }
        Option::Some(val)
    } else {
        let val: i64 = acc as i64;
        proof {
            assert(s@.subrange(start, *i as int) == dec_bytes(val as int));
            assert forall|n: int| number_at(s@, start, n) implies *i as int == start + dec_bytes(
                n,
            ).len() by {
                lemma_number_at_unique(s@, start, n, wn);
            }
        }
        Option::Some(val)
    }
}

/// Appending one decimal digit to a positive number appends its digit byte.
proof fn lemma_dec_u_snoc(a: int, d: int)
    requires
        a >= 1,
        0 <= d < 10,
    ensures
        dec_u(10 * a + d) == dec_u(a) + seq![(48 + d) as u8],
{
    assert((10 * a + d) / 10 == a && (10 * a + d) % 10 == d) by (nonlinear_arith)
        requires
            a >= 1,
            0 <= d < 10,
    ;
}

} // verus!

verus! {

/// The canonical bytes of a value witness are readable in place.
proof fn lemma_value_at_bytes(s: Seq<u8>, start: int, w: JsonVal)
    requires
        value_at(s, start, w),
    ensures
        start + cjson(w).len() <= s.len(),
        forall|j: int| 0 <= j < cjson(w).len() ==> s[start + j] == cjson(w)[j],
{
    assert forall|j: int| 0 <= j < cjson(w).len() implies s[start + j] == cjson(w)[j] by {
        assert(s.subrange(start, start + cjson(w).len() as int)[j] == s[start + j]);
    }
}

/// An empty array witness is a bare bracket pair; a nonempty one has its
/// first element right after the opening bracket.
#[verifier::rlimit(100)]
#[verifier::spinoff_prover]
proof fn lemma_array_first(s: Seq<u8>, start: int, w: JsonVal)
    requires
        value_at(s, start, w),
        w is Array,
    ensures
        start + cjson(w).len() <= s.len(),
        w->Array_0.len() == 0 ==> cjson(w).len() == 2 && s[start + 1] == 93,
        w->Array_0.len() > 0 ==> value_at(s, start + 1, w->Array_0[0]),
{
    let es = w->Array_0;
    assert(cjson(w) == seq![91u8] + cjson_items(es) + seq![93u8]);
    lemma_value_at_bytes(s, start, w);
    if es.len() == 0 {
        assert(cjson_items(es) =~= Seq::<u8>::empty());
        assert(cjson(w) =~= seq![91u8, 93u8]);
        assert(s[start + 1] == cjson(w)[1]);
    } else {
        assert(es.drop_first() =~= es.skip(1));
        assert(cjson_items(es) == cjson(es[0]) + cjson_items_rest(es.skip(1)));
        assert(cjson(w) =~= (seq![91u8] + cjson(es[0])) + (cjson_items_rest(es.skip(1))
            + seq![93u8]));
        assert(s.subrange(start + 1, start + 1 + cjson(es[0]).len() as int) =~= cjson(es[0]))
            by {
            assert forall|j: int| 0 <= j < cjson(es[0]).len() implies s[start + 1 + j] == cjson(
                es[0],
            )[j] by {
                assert(cjson(w)[1 + j] == (seq![91u8] + cjson(es[0]))[1 + j]);
            }
        }
        assert(delim_headed(s.skip(start + 1 + cjson(es[0]).len() as int))) by {
            let after = start + 1 + cjson(es[0]).len() as int;
            if es.skip(1).len() == 0 {
                assert(cjson_items_rest(es.skip(1)) =~= Seq::<u8>::empty());
                assert(s[after] == cjson(w)[1 + cjson(es[0]).len() as int]);
                assert(cjson(w)[1 + cjson(es[0]).len() as int] == 93);
                assert(s.skip(after)[0] == s[after]);
            } else {
                assert(cjson_items_rest(es.skip(1))[0] == 44);
                assert(s[after] == cjson(w)[1 + cjson(es[0]).len() as int]);
                assert(cjson(w)[1 + cjson(es[0]).len() as int] == cjson_items_rest(
                    es.skip(1),
                )[0]);
                assert(s.skip(after)[0] == s[after]);
            }
        }
        lemma_arr_wf_element(es, 0);
        assert(value_at(s, start + 1, es[0]));
    }
}

/// After `k` of more elements, an array witness continues with a comma and
/// its next element.
#[verifier::rlimit(100)]
#[verifier::spinoff_prover]
proof fn lemma_array_sep(s: Seq<u8>, start: int, w: JsonVal, k: int)
    requires
        value_at(s, start, w),
        w is Array,
        1 <= k < w->Array_0.len(),
    ensures
        ({
            let pos = start + 1 + cjson_items(w->Array_0.take(k)).len();
            s[pos] == 44 && value_at(s, pos + 1, w->Array_0[k])
        }),
{
    let es = w->Array_0;
    assert(cjson(w) == seq![91u8] + cjson_items(es) + seq![93u8]);
    lemma_value_at_bytes(s, start, w);
    lemma_items_split(es, k);
    assert(es.skip(k).len() > 0);
    assert(es.skip(k)[0] == es[k]);
    assert(es.skip(k).drop_first() =~= es.skip(k + 1));
    assert(cjson_items_rest(es.skip(k)) == seq![44u8] + cjson(es[k]) + cjson_items_rest(
        es.skip(k + 1),
    ));
    let pre = cjson_items(es.take(k));
    let pos = start + 1 + pre.len();
    assert(cjson(w) =~= (seq![91u8] + pre + seq![44u8] + cjson(es[k])) + (cjson_items_rest(
        es.skip(k + 1),
    ) + seq![93u8]));
    assert(s[pos] == cjson(w)[1 + pre.len() as int]);
    assert(cjson(w)[1 + pre.len() as int] == 44);
    assert(s.subrange(pos + 1, pos + 1 + cjson(es[k]).len() as int) =~= cjson(es[k])) by {
        assert forall|j: int| 0 <= j < cjson(es[k]).len() implies s[pos + 1 + j] == cjson(
            es[k],
        )[j] by {
            assert(cjson(w)[2 + pre.len() as int + j] == (seq![91u8] + pre + seq![44u8] + cjson(
                es[k],
            ))[2 + pre.len() as int + j]);
            assert(s[start + 2 + pre.len() as int + j] == cjson(w)[2 + pre.len() as int + j]);
        }
    }
    assert(delim_headed(s.skip(pos + 1 + cjson(es[k]).len() as int))) by {
        let after = pos + 1 + cjson(es[k]).len() as int;
        if es.skip(k + 1).len() == 0 {
            assert(cjson_items_rest(es.skip(k + 1)) =~= Seq::<u8>::empty());
            assert(s[after] == cjson(w)[2 + pre.len() as int + cjson(es[k]).len() as int]);
            assert(cjson(w)[2 + pre.len() as int + cjson(es[k]).len() as int] == 93);
            assert(s.skip(after)[0] == s[after]);
        } else {
            assert(cjson_items_rest(es.skip(k + 1))[0] == 44);
            assert(s[after] == cjson(w)[2 + pre.len() as int + cjson(es[k]).len() as int]);
            assert(cjson(w)[2 + pre.len() as int + cjson(es[k]).len() as int]
                == cjson_items_rest(es.skip(k + 1))[0]);
            assert(s.skip(after)[0] == s[after]);
        }
    }
    lemma_arr_wf_element(es, k);
    assert(value_at(s, pos + 1, es[k]));
}

/// After all its elements, an array witness closes with its bracket.
#[verifier::rlimit(100)]
#[verifier::spinoff_prover]
proof fn lemma_array_close(s: Seq<u8>, start: int, w: JsonVal)
    requires
        value_at(s, start, w),
        w is Array,
        w->Array_0.len() >= 1,
    ensures
        ({
            let pos = start + 1 + cjson_items(w->Array_0).len();
            s[pos] == 93 && start + cjson(w).len() == pos + 1
        }),
{
    let es = w->Array_0;
    assert(cjson(w) == seq![91u8] + cjson_items(es) + seq![93u8]);
    lemma_value_at_bytes(s, start, w);
    let pre = cjson_items(es);
    let pos = start + 1 + pre.len();
    assert(cjson(w) =~= (seq![91u8] + pre) + seq![93u8]);
    assert(s[pos] == cjson(w)[1 + pre.len() as int]);
    assert(cjson(w)[1 + pre.len() as int] == 93);
}

/// An empty object witness is a bare brace pair; a nonempty one has its
/// first member's key, colon and value right after the opening brace.
#[verifier::rlimit(100)]
#[verifier::spinoff_prover]
proof fn lemma_object_first(s: Seq<u8>, start: int, w: JsonVal)
    requires
        value_at(s, start, w),
        w is Object,
    ensures
        start + cjson(w).len() <= s.len(),
        w->Object_0.len() == 0 ==> cjson(w).len() == 2 && s[start + 1] == 125,
        w->Object_0.len() > 0 ==> ({
            let key = w->Object_0[0].0;
            let sl = cjson_string(key).len() as int;
            &&& string_at(s, start + 1, key)
            &&& s[start + 1 + sl] == 58
            &&& value_at(s, start + 2 + sl, w->Object_0[0].1)
        }),
{
    let fs = w->Object_0;
    assert(cjson(w) == seq![123u8] + cjson_members(fs) + seq![125u8]);
    lemma_value_at_bytes(s, start, w);
    if fs.len() == 0 {
        assert(cjson_members(fs) =~= Seq::<u8>::empty());
        assert(cjson(w) =~= seq![123u8, 125u8]);
        assert(s[start + 1] == cjson(w)[1]);
    } else {
        let key = fs[0].0;
        let val = fs[0].1;
        let sl = cjson_string(key).len() as int;
        assert(fs.drop_first() =~= fs.skip(1));
        assert(cjson_members(fs) =~= (cjson_string(key) + seq![58u8] + cjson(val))
            + cjson_members_rest(fs.skip(1)));
        assert(cjson(w) =~= (seq![123u8] + cjson_string(key)) + (seq![58u8] + cjson(val)
            + cjson_members_rest(fs.skip(1)) + seq![125u8]));
        assert(s.subrange(start + 1, start + 1 + sl) =~= cjson_string(key)) by {
            assert forall|j: int| 0 <= j < sl implies s[start + 1 + j] == cjson_string(key)[j] by {
                assert(cjson(w)[1 + j] == (seq![123u8] + cjson_string(key))[1 + j]);
            }
        }
        assert(string_at(s, start + 1, key));
        assert(cjson(w) =~= (seq![123u8] + cjson_string(key) + seq![58u8] + cjson(val)) + (
        cjson_members_rest(fs.skip(1)) + seq![125u8]));
        assert(s[start + 1 + sl] == cjson(w)[1 + sl]);
        assert(cjson(w)[1 + sl] == 58);
        assert(s.subrange(start + 2 + sl, start + 2 + sl + cjson(val).len() as int) =~= cjson(
            val,
        )) by {
            assert forall|j: int| 0 <= j < cjson(val).len() implies s[start + 2 + sl + j]
                == cjson(val)[j] by {
                assert(cjson(w)[2 + sl + j] == (seq![123u8] + cjson_string(key) + seq![58u8]
                    + cjson(val))[2 + sl + j]);
                assert(s[start + 2 + sl + j] == cjson(w)[2 + sl + j]);
            }
        }
        assert(delim_headed(s.skip(start + 2 + sl + cjson(val).len() as int))) by {
            let after = start + 2 + sl + cjson(val).len() as int;
            if fs.skip(1).len() == 0 {
                assert(cjson_members_rest(fs.skip(1)) =~= Seq::<u8>::empty());
                assert(s[after] == cjson(w)[2 + sl + cjson(val).len() as int]);
                assert(cjson(w)[2 + sl + cjson(val).len() as int] == 125);
                assert(s.skip(after)[0] == s[after]);
            } else {
                assert(cjson_members_rest(fs.skip(1))[0] == 44);
                assert(s[after] == cjson(w)[2 + sl + cjson(val).len() as int]);
                assert(cjson(w)[2 + sl + cjson(val).len() as int] == cjson_members_rest(
                    fs.skip(1),
                )[0]);
                assert(s.skip(after)[0] == s[after]);
            }
        }
        lemma_obj_wf_member(fs, 0);
        assert(value_at(s, start + 2 + sl, val));
    }
}

/// After `k` or more members, an object witness continues with a comma and
/// its next member's key, colon and value.
#[verifier::rlimit(100)]
#[verifier::spinoff_prover]
proof fn lemma_object_sep(s: Seq<u8>, start: int, w: JsonVal, k: int)
    requires
        value_at(s, start, w),
        w is Object,
        1 <= k < w->Object_0.len(),
    ensures
        ({
            let fs = w->Object_0;
            let pos = start + 1 + cjson_members(fs.take(k)).len();
            let key = fs[k].0;
            let sl = cjson_string(key).len() as int;
            &&& s[pos] == 44
            &&& string_at(s, pos + 1, key)
            &&& s[pos + 1 + sl] == 58
            &&& value_at(s, pos + 2 + sl, fs[k].1)
        }),
{
    let fs = w->Object_0;
    assert(cjson(w) == seq![123u8] + cjson_members(fs) + seq![125u8]);
    lemma_value_at_bytes(s, start, w);
    lemma_members_split(fs, k);
    assert(fs.skip(k).len() > 0);
    assert(fs.skip(k)[0] == fs[k]);
    assert(fs.skip(k).drop_first() =~= fs.skip(k + 1));
    let key = fs[k].0;
    let val = fs[k].1;
    let sl = cjson_string(key).len() as int;
    assert(cjson_members_rest(fs.skip(k)) == seq![44u8] + cjson_member(fs[k].0, fs[k].1)
        + cjson_members_rest(fs.skip(k + 1)));
    assert(cjson_member(fs[k].0, fs[k].1) == cjson_string(key) + seq![58u8] + cjson(val));
    assert(cjson_members_rest(fs.skip(k)) =~= seq![44u8] + (cjson_string(key) + seq![58u8]
        + cjson(val)) + cjson_members_rest(fs.skip(k + 1)));
    let pre = cjson_members(fs.take(k));
    let pos = start + 1 + pre.len();
    assert(cjson(w) =~= (seq![123u8] + pre) + (seq![44u8] + cjson_string(key) + seq![58u8]
        + cjson(val) + cjson_members_rest(fs.skip(k + 1)) + seq![125u8]));
    assert(s[pos] == cjson(w)[1 + pre.len() as int]);
    assert(cjson(w)[1 + pre.len() as int] == 44);
    assert(cjson(w) =~= (seq![123u8] + pre + seq![44u8] + cjson_string(key)) + (seq![58u8]
        + cjson(val) + cjson_members_rest(fs.skip(k + 1)) + seq![125u8]));
    assert(s.subrange(pos + 1, pos + 1 + sl) =~= cjson_string(key)) by {
        assert forall|j: int| 0 <= j < sl implies s[pos + 1 + j] == cjson_string(key)[j] by {
            assert(cjson(w)[2 + pre.len() as int + j] == (seq![123u8] + pre + seq![44u8]
                + cjson_string(key))[2 + pre.len() as int + j]);
            assert(s[start + 2 + pre.len() as int + j] == cjson(w)[2 + pre.len() as int + j]);
        }
    }
    assert(string_at(s, pos + 1, key));
    assert(cjson(w) =~= (seq![123u8] + pre + seq![44u8] + cjson_string(key) + seq![58u8] + cjson(
        val,
    )) + (cjson_members_rest(fs.skip(k + 1)) + seq![125u8]));
    assert(s[pos + 1 + sl] == cjson(w)[2 + pre.len() as int + sl]);
    assert(cjson(w)[2 + pre.len() as int + sl] == 58);
    assert(s.subrange(pos + 2 + sl, pos + 2 + sl + cjson(val).len() as int) =~= cjson(val)) by {
        assert forall|j: int| 0 <= j < cjson(val).len() implies s[pos + 2 + sl + j] == cjson(
            val,
        )[j] by {
            assert(cjson(w)[3 + pre.len() as int + sl + j] == (seq![123u8] + pre + seq![44u8]
                + cjson_string(key) + seq![58u8] + cjson(val))[3 + pre.len() as int + sl + j]);
            assert(s[start + 3 + pre.len() as int + sl + j] == cjson(w)[3 + pre.len() as int + sl
                + j]);
        }
    }
    assert(delim_headed(s.skip(pos + 2 + sl + cjson(val).len() as int))) by {
        let after = pos + 2 + sl + cjson(val).len() as int;
        if fs.skip(k + 1).len() == 0 {
            assert(cjson_members_rest(fs.skip(k + 1)) =~= Seq::<u8>::empty());
            assert(s[after] == cjson(w)[3 + pre.len() as int + sl + cjson(val).len() as int]);
            assert(cjson(w)[3 + pre.len() as int + sl + cjson(val).len() as int] == 125);
            assert(s.skip(after)[0] == s[after]);
        } else {
            assert(cjson_members_rest(fs.skip(k + 1))[0] == 44);
            assert(s[after] == cjson(w)[3 + pre.len() as int + sl + cjson(val).len() as int]);
            assert(cjson(w)[3 + pre.len() as int + sl + cjson(val).len() as int]
                == cjson_members_rest(fs.skip(k + 1))[0]);
            assert(s.skip(after)[0] == s[after]);
        }
    }
    lemma_obj_wf_member(fs, k);
    assert(value_at(s, pos + 2 + sl, val));
}

/// After all its members, an object witness closes with its brace.
#[verifier::rlimit(100)]
#[verifier::spinoff_prover]
proof fn lemma_object_close(s: Seq<u8>, start: int, w: JsonVal)
    requires
        value_at(s, start, w),
        w is Object,
        w->Object_0.len() >= 1,
    ensures
        ({
            let pos = start + 1 + cjson_members(w->Object_0).len();
            s[pos] == 125 && start + cjson(w).len() == pos + 1
        }),
{
    let fs = w->Object_0;
    assert(cjson(w) == seq![123u8] + cjson_members(fs) + seq![125u8]);
    lemma_value_at_bytes(s, start, w);
    let pre = cjson_members(fs);
    let pos = start + 1 + pre.len();
    assert(cjson(w) =~= (seq![123u8] + pre) + seq![125u8]);
    assert(s[pos] == cjson(w)[1 + pre.len() as int]);
    assert(cjson(w)[1 + pre.len() as int] == 125);
}

} // verus!

verus! {

/// Reads one canonical JSON value. The consumed bytes are exactly the
/// canonical serialization of the returned value, which is well formed; and
/// any well-formed value whose canonical bytes stand here, followed by a
/// delimiter or the end, is read in full.
#[verifier::loop_isolation(false)]
#[verifier::rlimit(100)]
#[verifier::spinoff_prover]
pub fn parse_value(s: &[u8], i: &mut usize) -> (r: Option<JsonValue>)
    requires
        *old(i) <= s@.len(),
    ensures
        *old(i) <= *final(i) <= s@.len(),
        match r {
            Option::Some(v) => wf_jval(jval(v)) && *old(i) < *final(i) && s@.subrange(
                *old(i) as int,
                *final(i) as int,
            ) == cjson(jval(v)),
            Option::None => true,
        },
        forall|w: JsonVal|
            value_at(s@, *old(i) as int, w) ==> (r is Some && *final(i) == *old(i) + cjson(
                w,
            ).len()),
    decreases s@.len() - *i, 1int,
{
    let ghost start = *i as int;
    let ghost has_w = exists|w: JsonVal| value_at(s@, start, w);
    let ghost wv: JsonVal = if has_w {
        choose|w: JsonVal| value_at(s@, start, w)
    } else {
        JsonVal::Null
    };
    proof {
        if has_w {
            lemma_cjson_first(wv);
            lemma_value_at_bytes(s@, start, wv);
        }
    }
    let end = s.len();
    if *i >= end {
        proof {
            if has_w {
                assert(s@[start] == cjson(wv)[0]);
                assert(false);
            }
        }
        return Option::None;
    }
    let b = s[*i];
    proof {
        if has_w {
            assert(b == cjson(wv)[0]);
        }
    }
    if b == 110 {
        proof {
            if has_w {
                assert(wv is Null);
                assert(cjson(wv) =~= seq![110u8, 117u8, 108u8, 108u8]);
            }
        }
        if end - *i >= 4 && s[*i + 1] == 117 && s[*i + 2] == 108 && s[*i + 3] == 108 {
            *i += 4;
            proof {
                assert(s@.subrange(start, start + 4) =~= cjson(jval(JsonValue::Null)));
                assert forall|w: JsonVal| value_at(s@, start, w) implies *i as int == start
                    + cjson(w).len() by {
                    lemma_value_at_unique(s@, start, w, wv);
                }
            }
            Option::Some(JsonValue::Null)
        } else {
            proof {
                if has_w {
                    assert(false);
                }
            }
            Option::None
        }
    } else if b == 116 {
        proof {
            if has_w {
                assert(wv is Bool && wv->Bool_0 == true);
                assert(cjson(wv) =~= seq![116u8, 114u8, 117u8, 101u8]);
            }
        }
        if end - *i >= 4 && s[*i + 1] == 114 && s[*i + 2] == 117 && s[*i + 3] == 101 {
            *i += 4;
            proof {
                assert(s@.subrange(start, start + 4) =~= cjson(jval(JsonValue::Bool(true))));
                assert forall|w: JsonVal| value_at(s@, start, w) implies *i as int == start
                    + cjson(w).len() by {
                    lemma_value_at_unique(s@, start, w, wv);
                }
            }
            Option::Some(JsonValue::Bool(true))
        } else {
            proof {
                if has_w {
                    assert(false);
                }
            }
            Option::None
        }
    } else if b == 102 {
        proof {
            if has_w {
                assert(wv is Bool && wv->Bool_0 == false);
                assert(cjson(wv) =~= seq![102u8, 97u8, 108u8, 115u8, 101u8]);
            }
        }
        if end - *i >= 5 && s[*i + 1] == 97 && s[*i + 2] == 108 && s[*i + 3] == 115 && s[*i + 4]
            == 101 {
            *i += 5;
            proof {
                assert(s@.subrange(start, start + 5) =~= cjson(jval(JsonValue::Bool(false))));
                assert forall|w: JsonVal| value_at(s@, start, w) implies *i as int == start
                    + cjson(w).len() by {
                    lemma_value_at_unique(s@, start, w, wv);
                }
            }
            Option::Some(JsonValue::Bool(false))
        } else {
            proof {
                if has_w {
                    assert(false);
                }
            }
            Option::None
        }
    } else if b == 34 {
        proof {
            if has_w {
                assert(wv is Text);
                assert(string_at(s@, start, wv->Text_0));
            }
        }
        match parse_string(s, i) {
            Option::Some(st) => {
                proof {
                    assert forall|w: JsonVal| value_at(s@, start, w) implies *i as int == start
                        + cjson(w).len() by {
                        lemma_value_at_unique(s@, start, w, wv);
                    }
                }
                Option::Some(JsonValue::Text(st))
            },
            Option::None => {
                proof {
                    if has_w {
                        assert(false);
                    }
                }
                Option::None
            },
        }
    } else if b == 45 || (48 <= b && b <= 57) {
        proof {
            if has_w {
                assert(wv is Int);
                assert(number_at(s@, start, wv->Int_0));
            }
        }
        match parse_number(s, i) {
            Option::Some(v) => {
                proof {
                    assert forall|w: JsonVal| value_at(s@, start, w) implies *i as int == start
                        + cjson(w).len() by {
                        lemma_value_at_unique(s@, start, w, wv);
                    }
                }
                Option::Some(JsonValue::Int(v))
            },
            Option::None => {
                proof {
                    if has_w {
                        assert(false);
                    }
                }
                Option::None
            },
        }
    } else if b == 91 {
        parse_array(s, i)
    } else if b == 123 {
        parse_object(s, i)
    } else {
        proof {
            if has_w {
                assert(false);
            }
        }
        Option::None
    }
}

} // verus!

verus! {

/// Reads a canonical JSON array, the opening bracket still unconsumed.
#[verifier::loop_isolation(false)]
#[verifier::rlimit(100)]
#[verifier::spinoff_prover]
fn parse_array(s: &[u8], i: &mut usize) -> (r: Option<JsonValue>)
    requires
        *old(i) < s@.len(),
        s@[*old(i) as int] == 91,
    ensures
        *old(i) <= *final(i) <= s@.len(),
        match r {
            Option::Some(v) => wf_jval(jval(v)) && *old(i) < *final(i) && s@.subrange(
                *old(i) as int,
                *final(i) as int,
            ) == cjson(jval(v)),
            Option::None => true,
        },
        forall|w: JsonVal|
            value_at(s@, *old(i) as int, w) ==> (r is Some && *final(i) == *old(i) + cjson(
                w,
            ).len()),
    decreases s@.len() - *i, 0int,
{
    let ghost start = *i as int;
    let ghost has_w = exists|w: JsonVal| value_at(s@, start, w);
    let ghost wv: JsonVal = if has_w {
        choose|w: JsonVal| value_at(s@, start, w)
    } else {
        JsonVal::Null
    };
    proof {
        if has_w {
            lemma_cjson_first(wv);
            assert(s@.subrange(start, start + cjson(wv).len() as int)[0] == s@[start]);
            assert(wv is Array);
            lemma_array_first(s@, start, wv);
        }
    }
    let ghost es: Seq<JsonVal> = if has_w {
        wv->Array_0
    } else {
        Seq::empty()
    };
    let end = s.len();
    *i += 1;
    let mut elems: Vec<JsonValue> = Vec::new();
    if *i < end && s[*i] == 93 {
        proof {
            if has_w && es.len() > 0 {
                lemma_cjson_first(es[0]);
                lemma_value_at_bytes(s@, start + 1, es[0]);
                assert(s@[start + 1] == cjson(es[0])[0]);
                assert(false);
            }
        }
        *i += 1;
        let r = JsonValue::Array(elems);
        proof {
            assert(jval_seq(elems@) =~= Seq::<JsonVal>::empty());
            assert(s@.subrange(start, *i as int) =~= seq![91u8, 93u8]);
            assert(s@.subrange(start, *i as int) == cjson(jval(r)));
            if has_w {
                assert(cjson(wv).len() == 2);
            }
            assert forall|w: JsonVal| value_at(s@, start, w) implies *i as int == start + cjson(
                w,
            ).len() by {
                lemma_value_at_unique(s@, start, w, wv);
            }
        }
        return Option::Some(r);
    }
    proof {
        if has_w {
            if es.len() == 0 {
                assert(s@[start + 1] == 93);
                assert(start + 1 < s@.len());
                assert(false);
            }
            assert(value_at(s@, start + 1, es[0]));
        }
    }
    let ghost first_at = *i as int;
    let v0 = match parse_value(s, i) {
        Option::Some(v0) => v0,
        Option::None => {
            proof {
                if has_w {
                    assert(false);
                }
            }
            return Option::None;
        },
    };
    proof {
        lemma_items_snoc(Seq::<JsonVal>::empty(), jval(v0));
        lemma_jval_seq_len(elems@.push(v0));
        lemma_jval_seq_index(elems@.push(v0), 0);
        assert(jval_seq(elems@.push(v0)) =~= Seq::<JsonVal>::empty().push(jval(v0)));
        assert(s@.subrange(start, *i as int) =~= s@.subrange(start, first_at) + s@.subrange(
            first_at,
            *i as int,
        ));
        if has_w {
            assert(*i as int == first_at + cjson(es[0]).len());
            assert(s@.subrange(first_at, *i as int) == cjson(es[0]));
            lemma_canonical_unique(jval(v0), es[0]);
        }
    }
    elems.push(v0);
    proof {
        lemma_jval_seq_len(elems@);
        assert forall|j: int| 0 <= j < elems@.len() implies wf_jval(
            #[trigger] jval_seq(elems@)[j],
        ) by {
            lemma_jval_seq_index(elems@, j);
        }
        assert(s@.subrange(start, *i as int) == seq![91u8] + cjson_items(jval_seq(elems@)));
        if has_w {
            assert(jval_seq(elems@) =~= es.take(1));
        }
    }
    loop
        invariant
            start < *i as int <= end == s@.len(),
            elems@.len() > 0,
            jval_seq(elems@).len() == elems@.len(),
            forall|j: int| 0 <= j < elems@.len() ==> wf_jval(#[trigger] jval_seq(elems@)[j]),
            s@.subrange(start, *i as int) == seq![91u8] + cjson_items(jval_seq(elems@)),
            has_w ==> elems@.len() <= es.len() && jval_seq(elems@) == es.take(
                elems@.len() as int,
            ),
        decreases s@.len() - *i,
    {
        let ghost k = elems@.len() as int;
        proof {
            assert(s@.subrange(start, *i as int).len() == *i - start);
            if has_w {
                assert(cjson_items(jval_seq(elems@)) == cjson_items(es.take(k)));
                if k < es.len() {
                    lemma_array_sep(s@, start, wv, k);
                    assert(s@[*i as int] == 44);
                } else {
                    lemma_array_close(s@, start, wv);
                    assert(es.take(k) =~= es);
                    assert(s@[*i as int] == 93);
                }
            }
        }
        if *i >= end {
            proof {
                if has_w {
                    assert(false);
                }
            }
            return Option::None;
        }
        let c = s[*i];
        if c == 93 {
            *i += 1;
            let r = JsonValue::Array(elems);
            proof {
                assert(s@.subrange(start, *i as int) =~= s@.subrange(start, *i as int - 1)
                    + seq![93u8]);
                assert(s@.subrange(start, *i as int) == cjson(jval(r)));
                if has_w {
                    assert(k == es.len());
                    assert(*i as int == start + cjson(wv).len());
                }
                assert forall|w: JsonVal| value_at(s@, start, w) implies *i as int == start
                    + cjson(w).len() by {
                    lemma_value_at_unique(s@, start, w, wv);
                }
            }
            return Option::Some(r);
        } else if c == 44 {
            proof {
                if has_w {
                    assert(k < es.len());
                }
            }
            *i += 1;
            let ghost held = *i as int;
            let ghost es_pre = jval_seq(elems@);
            let v = match parse_value(s, i) {
                Option::Some(v) => v,
                Option::None => {
                    proof {
                        if has_w {
                            assert(value_at(s@, held, es[k]));
                            assert(false);
                        }
                    }
                    return Option::None;
                },
            };
            proof {
                lemma_items_snoc(es_pre, jval(v));
                lemma_jval_seq_len(elems@.push(v));
                assert forall|j: int| 0 <= j < elems@.push(v).len() implies #[trigger] jval_seq(
                    elems@.push(v),
                )[j] == es_pre.push(jval(v))[j] by {
                    lemma_jval_seq_index(elems@.push(v), j);
                    if j < elems@.len() {
                        lemma_jval_seq_index(elems@, j);
                    }
                }
                assert(jval_seq(elems@.push(v)) =~= es_pre.push(jval(v)));
                assert(s@.subrange(start, held - 1) == seq![91u8] + cjson_items(es_pre));
                assert(s@.subrange(start, *i as int) =~= s@.subrange(start, held - 1)
                    + seq![44u8] + s@.subrange(held, *i as int));
                if has_w {
                    assert(value_at(s@, held, es[k]));
                    assert(*i as int == held + cjson(es[k]).len());
                    assert(s@.subrange(held, *i as int) == cjson(es[k]));
                    lemma_canonical_unique(jval(v), es[k]);
                    assert(es_pre.push(jval(v)) =~= es.take(k + 1));
                }
            }
            elems.push(v);
            proof {
                lemma_jval_seq_len(elems@);
                assert forall|j: int| 0 <= j < elems@.len() implies wf_jval(
                    #[trigger] jval_seq(elems@)[j],
                ) by {
                    lemma_jval_seq_index(elems@, j);
                }
            }
        } else {
            proof {
                if has_w {
                    assert(false);
                }
            }
            return Option::None;
        }
    }
}

} // verus!

verus! {

/// One member's canonical bytes — quoted key, colon, value — stand at
/// position `i`, the value followed by a delimiter.
pub open spec fn member_at(s: Seq<u8>, i: int, key: Seq<char>, val: JsonVal) -> bool {
    &&& string_at(s, i, key)
    &&& i + cjson_member(key, val).len() <= s.len()
    &&& s[i + cjson_string(key).len()] == 58
    &&& value_at(s, i + cjson_string(key).len() + 1, val)
}

/// Reads one object member: a quoted key, a colon, and a value. The consumed
/// bytes are exactly the member's canonical bytes, and any member standing
/// here is read in full, giving back its key and value.
#[verifier::loop_isolation(false)]
#[verifier::rlimit(100)]
#[verifier::spinoff_prover]
fn parse_member(s: &[u8], i: &mut usize) -> (r: Option<(String, JsonValue)>)
    requires
        *old(i) <= s@.len(),
    ensures
        *old(i) <= *final(i) <= s@.len(),
        match r {
            Option::Some(m) => wf_jval(jval(m.1)) && *old(i) < *final(i) && s@.subrange(
                *old(i) as int,
                *final(i) as int,
            ) == cjson_member(m.0@, jval(m.1)),
            Option::None => true,
        },
        forall|key: Seq<char>, val: JsonVal|
            member_at(s@, *old(i) as int, key, val) ==> (match r {
                Option::Some(m) => m.0@ == key && jval(m.1) == val && *final(i) == *old(i)
                    + cjson_member(key, val).len(),
                Option::None => false,
            }),
    decreases s@.len() - *i, 2int,
{
    let ghost start = *i as int;
    let ghost has_w = exists|key: Seq<char>, val: JsonVal| member_at(s@, start, key, val);
    let ghost wpair: (Seq<char>, JsonVal) = if has_w {
        choose|kv: (Seq<char>, JsonVal)| member_at(s@, start, kv.0, kv.1)
    } else {
        (Seq::empty(), JsonVal::Null)
    };
    let ghost wkey: Seq<char> = wpair.0;
    let ghost wval: JsonVal = wpair.1;
    proof {
        if has_w {
            let (k0, v0) = choose|key: Seq<char>, val: JsonVal| member_at(s@, start, key, val);
            assert(member_at(s@, start, k0, v0));
            assert(member_at(s@, start, ((k0, v0)).0, ((k0, v0)).1));
            assert(exists|kv: (Seq<char>, JsonVal)| member_at(s@, start, kv.0, kv.1));
            assert(member_at(s@, start, wkey, wval));
        }
    }
    let end = s.len();
    if *i >= end || s[*i] != 34 {
        proof {
            if has_w {
                assert(s@.subrange(start, start + cjson_string(wkey).len() as int)[0]
                    == s@[start]);
                assert(cjson_string(wkey)[0] == 34);
                assert(false);
            }
        }
        return Option::None;
    }
    let key = match parse_string(s, i) {
        Option::Some(key) => key,
        Option::None => {
            proof {
                if has_w {
                    assert(false);
                }
            }
            return Option::None;
        },
    };
    proof {
        if has_w {
            assert(*i as int == start + cjson_string(wkey).len());
            lemma_string_at_unique(s@, start, key@, wkey);
            assert(s@[*i as int] == 58);
        }
    }
    if *i >= end || s[*i] != 58 {
        proof {
            if has_w {
                assert(false);
            }
        }
        return Option::None;
    }
    *i += 1;
    let ghost val_at = *i as int;
    let v = match parse_value(s, i) {
        Option::Some(v) => v,
        Option::None => {
            proof {
                if has_w {
                    assert(value_at(s@, val_at, wval));
                    assert(false);
                }
            }
            return Option::None;
        },
    };
    proof {
        assert(s@.subrange(start, *i as int) =~= s@.subrange(start, val_at - 1) + seq![58u8]
            + s@.subrange(val_at, *i as int));
        assert(s@.subrange(start, *i as int) == cjson_member(key@, jval(v)));
        if has_w {
            assert(value_at(s@, val_at, wval));
            assert(*i as int == val_at + cjson(wval).len());
            assert(s@.subrange(val_at, *i as int) == cjson(wval));
            lemma_canonical_unique(jval(v), wval);
        }
        assert forall|key2: Seq<char>, val2: JsonVal|
            member_at(s@, start, key2, val2) implies key@ == key2 && jval(v) == val2 by {
            lemma_string_at_unique(s@, start, key2, wkey);
            lemma_value_at_unique(s@, start + cjson_string(wkey).len() as int + 1, val2, wval);
        }
    }
    Option::Some((key, v))
}

/// Reads a canonical JSON object, the opening brace still unconsumed; keys
/// must strictly ascend in canonical order.
#[verifier::loop_isolation(false)]
#[verifier::rlimit(100)]
#[verifier::spinoff_prover]
fn parse_object(s: &[u8], i: &mut usize) -> (r: Option<JsonValue>)
    requires
        *old(i) < s@.len(),
        s@[*old(i) as int] == 123,
    ensures
        *old(i) <= *final(i) <= s@.len(),
        match r {
            Option::Some(v) => wf_jval(jval(v)) && *old(i) < *final(i) && s@.subrange(
                *old(i) as int,
                *final(i) as int,
            ) == cjson(jval(v)),
            Option::None => true,
        },
        forall|w: JsonVal|
            value_at(s@, *old(i) as int, w) ==> (r is Some && *final(i) == *old(i) + cjson(
                w,
            ).len()),
    decreases s@.len() - *i, 0int,
{
    let ghost start = *i as int;
    let ghost has_w = exists|w: JsonVal| value_at(s@, start, w);
    let ghost wv: JsonVal = if has_w {
        choose|w: JsonVal| value_at(s@, start, w)
    } else {
        JsonVal::Null
    };
    proof {
        if has_w {
            lemma_cjson_first(wv);
            assert(s@.subrange(start, start + cjson(wv).len() as int)[0] == s@[start]);
            assert(wv is Object);
            lemma_object_first(s@, start, wv);
        }
    }
    let ghost fsw: Seq<(Seq<char>, JsonVal)> = if has_w {
        wv->Object_0
    } else {
        Seq::empty()
    };
    let end = s.len();
    *i += 1;
    let mut members: Vec<(String, JsonValue)> = Vec::new();
    let mut prev_key_bytes: Vec<u8> = Vec::new();
    if *i < end && s[*i] == 125 {
        proof {
            if has_w && fsw.len() > 0 {
                assert(s@[start + 1] == 34) by {
                    let key = fsw[0].0;
                    assert(s@.subrange(start + 1, start + 1 + cjson_string(key).len() as int)[0]
                        == s@[start + 1]);
                    assert(cjson_string(key)[0] == 34);
                }
                assert(false);
            }
        }
        *i += 1;
        let r = JsonValue::Object(members);
        proof {
            assert(jval_fields(members@) =~= Seq::<(Seq<char>, JsonVal)>::empty());
            assert(s@.subrange(start, *i as int) =~= seq![123u8, 125u8]);
            assert(s@.subrange(start, *i as int) == cjson(jval(r)));
            lemma_obj_wf(jval_fields(members@));
            if has_w {
                assert(cjson(wv).len() == 2);
            }
            assert forall|w: JsonVal| value_at(s@, start, w) implies *i as int == start + cjson(
                w,
            ).len() by {
                lemma_value_at_unique(s@, start, w, wv);
            }
        }
        return Option::Some(r);
    }
    proof {
        if has_w && fsw.len() == 0 {
            assert(s@[start + 1] == 125);
            assert(start + 1 < s@.len());
            assert(false);
        }
        assert(jval_fields(members@) =~= Seq::<(Seq<char>, JsonVal)>::empty());
        assert(s@.subrange(start, *i as int) =~= seq![123u8] + cjson_members(
            jval_fields(members@),
        ));
    }
    loop
        invariant
            start < *i as int <= end == s@.len(),
            jval_fields(members@).len() == members@.len(),
            forall|j: int|
                0 <= j < members@.len() ==> wf_jval((#[trigger] jval_fields(members@)[j]).1),
            forall|j: int|
                0 <= j < members@.len() - 1 ==> key_lt(
                    (#[trigger] jval_fields(members@)[j]).0,
                    jval_fields(members@)[j + 1].0,
                ),
            members@.len() > 0 ==> prev_key_bytes@ == encode_utf8(
                members@[members@.len() - 1].0@,
            ),
            s@.subrange(start, *i as int) == seq![123u8] + cjson_members(jval_fields(members@)),
            has_w ==> members@.len() <= fsw.len() && fsw.len() > 0 && jval_fields(members@)
                == fsw.take(members@.len() as int),
        decreases s@.len() - *i,
    {
        let ghost k = members@.len() as int;
        proof {
            assert(s@.subrange(start, *i as int).len() == *i - start);
            if has_w {
                assert(cjson_members(jval_fields(members@)) == cjson_members(fsw.take(k)));
                if k == 0 {
                    assert(fsw.take(0) =~= Seq::<(Seq<char>, JsonVal)>::empty());
                    assert(*i as int == start + 1);
                    assert(member_at(s@, start + 1, fsw[0].0, fsw[0].1));
                } else if k < fsw.len() {
                    lemma_object_sep(s@, start, wv, k);
                    assert(s@[*i as int] == 44);
                    assert(member_at(s@, *i as int + 1, fsw[k].0, fsw[k].1));
                } else {
                    lemma_object_close(s@, start, wv);
                    assert(fsw.take(k) =~= fsw);
                    assert(s@[*i as int] == 125);
                }
            }
        }
        if members.len() > 0 {
            if *i >= end {
                proof {
                    if has_w {
                        assert(false);
                    }
                }
                return Option::None;
            }
            let c = s[*i];
            if c == 125 {
                *i += 1;
                let ghost fs = jval_fields(members@);
                let r = JsonValue::Object(members);
                proof {
                    assert(s@.subrange(start, *i as int) =~= s@.subrange(start, *i as int - 1)
                        + seq![125u8]);
                    assert(s@.subrange(start, *i as int) == cjson(jval(r)));
                    lemma_obj_wf(fs);
                    if has_w {
                        assert(k == fsw.len());
                        assert(*i as int == start + cjson(wv).len());
                    }
                    assert forall|w: JsonVal| value_at(s@, start, w) implies *i as int == start
                        + cjson(w).len() by {
                        lemma_value_at_unique(s@, start, w, wv);
                    }
                }
                return Option::Some(r);
            } else if c == 44 {
                proof {
                    if has_w {
                        assert(k < fsw.len());
                    }
                }
                *i += 1;
                proof {
                    assert(s@.subrange(start, *i as int) =~= s@.subrange(start, *i as int - 1)
                        + seq![44u8]);
                }
            } else {
                proof {
                    if has_w {
                        assert(false);
                    }
                }
                return Option::None;
            }
        }
        let ghost held = *i as int;
        let ghost fs_pre = jval_fields(members@);
        let m = match parse_member(s, i) {
            Option::Some(m) => m,
            Option::None => {
                proof {
                    if has_w {
                        assert(member_at(s@, held, fsw[k].0, fsw[k].1));
                        assert(false);
                    }
                }
                return Option::None;
            },
        };
        let (kx, v) = m;
        let key_bytes = kx.as_str().as_bytes_vec();
        proof {
            if has_w {
                assert(member_at(s@, held, fsw[k].0, fsw[k].1));
                assert(kx@ == fsw[k].0 && jval(v) == fsw[k].1);
            }
        }
        if members.len() > 0 {
            proof {
                if has_w {
                    lemma_obj_wf_key_lt(fsw, k - 1, k);
                    lemma_jval_fields_index(members@, k - 1);
                    assert(jval_fields(members@)[k - 1] == fsw[k - 1]);
                    assert(prev_key_bytes@ == encode_utf8(fsw[k - 1].0));
                }
            }
            if !bytes_less(&prev_key_bytes, &key_bytes) {
                proof {
                    if has_w {
                        assert(key_lt(fsw[k - 1].0, fsw[k].0));
                        assert(false);
                    }
                }
                return Option::None;
            }
        }
        proof {
            lemma_members_snoc(fs_pre, (kx@, jval(v)));
            lemma_jval_fields_len(members@.push((kx, v)));
            assert forall|j: int| 0 <= j < members@.push((kx, v)).len() implies
                #[trigger] jval_fields(members@.push((kx, v)))[j] == fs_pre.push(
                (kx@, jval(v)),
            )[j] by {
                lemma_jval_fields_index(members@.push((kx, v)), j);
                if j < members@.len() {
                    lemma_jval_fields_index(members@, j);
                }
            }
            assert(jval_fields(members@.push((kx, v))) =~= fs_pre.push((kx@, jval(v))));
            assert(s@.subrange(start, held) == seq![123u8] + cjson_members(fs_pre) + (if k == 0 {
                Seq::<u8>::empty()
            } else {
                seq![44u8]
            }));
            assert(s@.subrange(start, *i as int) =~= s@.subrange(start, held) + s@.subrange(
                held,
                *i as int,
            ));
            if members@.len() > 0 {
                lemma_jval_fields_index(members@, k - 1);
                assert(key_lt(members@[k - 1].0@, kx@)) by {
                    if has_w {
                        lemma_obj_wf_key_lt(fsw, k - 1, k);
                        assert(jval_fields(members@)[k - 1] == fsw[k - 1]);
                    }
                }
            }
            if has_w {
                assert(fs_pre.push((kx@, jval(v))) =~= fsw.take(k + 1));
            }
        }
        members.push((kx, v));
        prev_key_bytes = key_bytes;
        proof {
            lemma_jval_fields_len(members@);
            assert forall|j: int| 0 <= j < members@.len() implies wf_jval(
                (#[trigger] jval_fields(members@)[j]).1,
            ) by {
                lemma_jval_fields_index(members@, j);
            }
            assert forall|j: int| 0 <= j < members@.len() - 1 implies key_lt(
                (#[trigger] jval_fields(members@)[j]).0,
                jval_fields(members@)[j + 1].0,
            ) by {
                lemma_jval_fields_index(members@, j);
                lemma_jval_fields_index(members@, j + 1);
            }
        }
    }
}

/// Parses canonical JSON bytes into a value: it succeeds on exactly the
/// canonical serializations of well-formed values, and whatever it accepts
/// serializes back to the input bytes.
pub fn parse_json(s: &[u8]) -> (r: Option<JsonValue>)
    ensures
        match r {
            Option::Some(v) => wf_jval(jval(v)) && cjson(jval(v)) == s@,
            Option::None => true,
        },
        (exists|w: JsonVal| wf_jval(w) && cjson(w) == s@) ==> r is Some,
{
    let ghost has_w = exists|w: JsonVal| wf_jval(w) && cjson(w) == s@;
    proof {
        if has_w {
            let w = choose|w: JsonVal| wf_jval(w) && cjson(w) == s@;
            assert(s@.subrange(0, cjson(w).len() as int) =~= cjson(w));
            assert(s@.skip(0 + cjson(w).len() as int).len() == 0);
            assert(value_at(s@, 0, w));
        }
    }
    let mut i: usize = 0;
    match parse_value(s, &mut i) {
        Option::Some(v) => {
            if i == s.len() {
                proof {
                    assert(s@.subrange(0, s@.len() as int) =~= s@);
                }
                Option::Some(v)
            } else {
                proof {
                    if has_w {
                        let w = choose|w: JsonVal| wf_jval(w) && cjson(w) == s@;
                        assert(value_at(s@, 0, w));
                        assert(false);
                    }
                }
                Option::None
            }
        },
        Option::None => {
            proof {
                if has_w {
                    let w = choose|w: JsonVal| wf_jval(w) && cjson(w) == s@;
                    assert(value_at(s@, 0, w));
                    assert(false);
                }
            }
            Option::None
        },
    }
}

} // verus!
