//! Key material: a typed JSON Web Key (JWK) for elliptic-curve keys, with a
//! public projection and a cryptographic-erasure guarantee: the buffer holding
//! a private scalar is overwritten with zeros when the owning value is
//! destroyed, on every exit path.

use vstd::prelude::*;

use crate::encoding::{b64url_nopad, base64url_encode};
use crate::json::{jval, jval_fields, key_lt, wf_jval, JsonVal, JsonValue};
use crate::json::{lemma_jval_fields_index, lemma_jval_fields_len, lemma_key_lt_ascii};

verus! {

/// A big-endian unsigned integer, carried as raw bytes and rendered as
/// base64url without padding on the wire.
pub struct Base64urlUInt(pub Vec<u8>);

impl View for Base64urlUInt {
    type V = Seq<u8>;

    open spec fn view(&self) -> Seq<u8> {
        self.0@
    }
}

impl Base64urlUInt {
    /// The wire form of this integer: base64url without padding.
    pub fn to_base64url_string(&self) -> (r: String)
        requires
            self@.len() * 4 <= usize::MAX,
        ensures
            r@ == b64url_nopad(self@),
    {
        base64url_encode(&self.0)
    }
}

/// Parameters of an elliptic-curve key: curve identifier, point coordinates,
/// and the optional private scalar.
pub struct ECParams {
    pub curve: String,
    pub x_coordinate: Base64urlUInt,
    pub y_coordinate: Base64urlUInt,
    pub ecc_private_key: Option<Base64urlUInt>,
}

/// Key parameters, discriminated by algorithm family. Only elliptic-curve keys
/// are modeled.
pub enum Params {
    EC(ECParams),
}

/// A JSON Web Key.
pub struct JWK {
    pub params: Params,
}

/// Errors arising from key handling.
#[derive(Debug)]
pub enum Error {
    /// The elliptic-curve point was unavailable from the backing library.
    MissingPoint,
}

/// Copies a byte vector.
fn copy_bytes(v: &Vec<u8>) -> (r: Vec<u8>)
    ensures
        r@ == v@,
{
    let mut out: Vec<u8> = Vec::new();
    let mut i: usize = 0;
    while i < v.len()
        invariant
            i <= v.len(),
            out@ == v@.take(i as int),
        decreases v.len() - i,
    {
        out.push(v[i]);
        proof {
            assert(v@.take(i as int + 1) =~= v@.take(i as int).push(v@[i as int]));
        }
        i += 1;
    }
    proof {
        assert(v@.take(v@.len() as int) =~= v@);
    }
    out
}

/// Relies on zeroize::Zeroize for byte slices: every byte is overwritten with
/// zero through a volatile write, and the length is kept.
#[verifier::external_body]
fn zeroize_bytes(v: &mut Vec<u8>)
    ensures
        final(v)@.len() == old(v)@.len(),
        forall|i: int| 0 <= i < final(v)@.len() ==> final(v)@[i] == 0u8,
    opens_invariants none
    no_unwind
{
    zeroize::Zeroize::zeroize(v.as_mut_slice());
}

impl ECParams {
    /// True when a private scalar is present.
    pub open spec fn has_private_key(&self) -> bool {
        self.ecc_private_key is Some
    }

    /// Overwrites the private scalar's buffer, if any, with zeros. The curve
    /// and the public coordinates are untouched.
    pub fn zeroize_private_scalar(&mut self)
        ensures
            final(self).curve == old(self).curve,
            final(self).x_coordinate@ == old(self).x_coordinate@,
            final(self).y_coordinate@ == old(self).y_coordinate@,
            match old(self).ecc_private_key {
                Option::None => final(self).ecc_private_key is None,
                Option::Some(d) => match final(self).ecc_private_key {
                    Option::Some(z) => z@.len() == d@.len() && forall|i: int|
                        0 <= i < z@.len() ==> z@[i] == 0u8,
                    Option::None => false,
                },
            },
        opens_invariants none
        no_unwind
    {
        match &mut self.ecc_private_key {
            Option::Some(d) => zeroize_bytes(&mut d.0),
            Option::None => {},
        }
    }
}

impl Drop for ECParams {
    /// Cryptographic erasure on destruction, on every exit path.
    fn drop(&mut self)
        opens_invariants none
        no_unwind
    {
        self.zeroize_private_scalar();
    }
}

/// Bounds under which the key's coordinates can be base64url-encoded without
/// the size computation overflowing the machine's word.
pub open spec fn jwk_within_limits(j: JWK) -> bool {
    match j.params {
        Params::EC(p) => p.x_coordinate@.len() * 4 <= usize::MAX && p.y_coordinate@.len() * 4
            <= usize::MAX && match p.ecc_private_key {
            Option::Some(d) => d@.len() * 4 <= usize::MAX,
            Option::None => true,
        },
    }
}

/// The JSON object a JWK converts to: `crv`, optional `d`, `kty`, `x`, `y`,
/// with coordinates in base64url, keys in canonical order.
pub open spec fn spec_jwk_json(j: JWK) -> JsonVal {
    match j.params {
        Params::EC(p) => {
            let crv = ("crv"@, JsonVal::Text(p.curve@));
            let kty = ("kty"@, JsonVal::Text("EC"@));
            let x = ("x"@, JsonVal::Text(b64url_nopad(p.x_coordinate@)));
            let y = ("y"@, JsonVal::Text(b64url_nopad(p.y_coordinate@)));
            match p.ecc_private_key {
                Option::Some(d) => JsonVal::Object(
                    seq![crv, ("d"@, JsonVal::Text(b64url_nopad(d@))), kty, x, y],
                ),
                Option::None => JsonVal::Object(seq![crv, kty, x, y]),
            }
        },
    }
}

/// The canonical order of the JWK member keys.
proof fn lemma_jwk_keys_sorted()
    ensures
        key_lt("crv"@, "d"@),
        key_lt("crv"@, "kty"@),
        key_lt("crv"@, "x"@),
        key_lt("crv"@, "y"@),
        key_lt("d"@, "kty"@),
        key_lt("d"@, "x"@),
        key_lt("d"@, "y"@),
        key_lt("kty"@, "x"@),
        key_lt("kty"@, "y"@),
        key_lt("x"@, "y"@),
{
    reveal_strlit("crv");
    reveal_strlit("d");
    reveal_strlit("kty");
    reveal_strlit("x");
    reveal_strlit("y");
    lemma_key_lt_ascii("crv"@, "d"@, 0);
    lemma_key_lt_ascii("crv"@, "kty"@, 0);
    lemma_key_lt_ascii("crv"@, "x"@, 0);
    lemma_key_lt_ascii("crv"@, "y"@, 0);
    lemma_key_lt_ascii("d"@, "kty"@, 0);
    lemma_key_lt_ascii("d"@, "x"@, 0);
    lemma_key_lt_ascii("d"@, "y"@, 0);
    lemma_key_lt_ascii("kty"@, "x"@, 0);
    lemma_key_lt_ascii("kty"@, "y"@, 0);
    lemma_key_lt_ascii("x"@, "y"@, 0);
}

/// Converts a JWK to its JSON object, exactly as [`spec_jwk_json`] describes;
/// the result is well formed.
pub fn jwk_to_json(jwk: &JWK) -> (r: JsonValue)
    requires
        jwk_within_limits(*jwk),
    ensures
        jval(r) == spec_jwk_json(*jwk),
        wf_jval(jval(r)),
{
    match &jwk.params {
        Params::EC(p) => {
            let mut fields: Vec<(String, JsonValue)> = Vec::new();
            fields.push(("crv".to_owned(), JsonValue::Text(p.curve.clone())));
            match &p.ecc_private_key {
                Option::Some(d) => {
                    fields.push(("d".to_owned(), JsonValue::Text(base64url_encode(&d.0))));
                },
                Option::None => {},
            }
            fields.push(("kty".to_owned(), JsonValue::Text("EC".to_owned())));
            fields.push(("x".to_owned(), JsonValue::Text(base64url_encode(&p.x_coordinate.0))));
            fields.push(("y".to_owned(), JsonValue::Text(base64url_encode(&p.y_coordinate.0))));
            let r = JsonValue::Object(fields);
            proof {
                lemma_jval_fields_len(fields@);
                lemma_jwk_keys_sorted();
                if p.ecc_private_key is Some {
                    lemma_jval_fields_index(fields@, 0);
                    lemma_jval_fields_index(fields@, 1);
                    lemma_jval_fields_index(fields@, 2);
                    lemma_jval_fields_index(fields@, 3);
                    lemma_jval_fields_index(fields@, 4);
                    assert(jval_fields(fields@).len() == 5);
                    assert(jval_fields(fields@)[0] == ("crv"@, JsonVal::Text(
                        p.curve@,
                    )));
                    assert(jval_fields(fields@)[1] == ("d"@, JsonVal::Text(
                        b64url_nopad(p.ecc_private_key->Some_0@),
                    )));
                    assert(jval_fields(fields@)[2] == ("kty"@, JsonVal::Text("EC"@)));
                    assert(jval_fields(fields@)[3] == ("x"@, JsonVal::Text(
                        b64url_nopad(p.x_coordinate@),
                    )));
                    assert(jval_fields(fields@)[4] == ("y"@, JsonVal::Text(
                        b64url_nopad(p.y_coordinate@),
                    )));
                    assert(jval_fields(fields@) =~= seq![
                        ("crv"@, JsonVal::Text(p.curve@)),
                        ("d"@, JsonVal::Text(b64url_nopad(p.ecc_private_key->Some_0@))),
                        ("kty"@, JsonVal::Text("EC"@)),
                        ("x"@, JsonVal::Text(b64url_nopad(p.x_coordinate@))),
                        ("y"@, JsonVal::Text(b64url_nopad(p.y_coordinate@))),
                    ]);
                    assert(jval(r) == spec_jwk_json(*jwk));
                    let fs = jval_fields(fields@);
                    assert forall|i: int| 0 <= i < fs.len() implies wf_jval(
                        #[trigger] fs[i].1,
                    ) by {
                        assert(fs[i].1 is Text);
                    }
                    assert forall|i: int, j: int| 0 <= i < j < fs.len() implies key_lt(
                        #[trigger] fs[i].0,
                        #[trigger] fs[j].0,
                    ) by {
                        assert(key_lt(fs[i].0, fs[j].0));
                    }
                    assert(wf_jval(jval(r)));
                } else {
                    lemma_jval_fields_index(fields@, 0);
                    lemma_jval_fields_index(fields@, 1);
                    lemma_jval_fields_index(fields@, 2);
                    lemma_jval_fields_index(fields@, 3);
                    assert(jval_fields(fields@) =~= seq![
                        ("crv"@, JsonVal::Text(p.curve@)),
                        ("kty"@, JsonVal::Text("EC"@)),
                        ("x"@, JsonVal::Text(b64url_nopad(p.x_coordinate@))),
                        ("y"@, JsonVal::Text(b64url_nopad(p.y_coordinate@))),
                    ]);
                    assert(jval(r) == spec_jwk_json(*jwk));
                    let fs = jval_fields(fields@);
                    assert forall|i: int| 0 <= i < fs.len() implies wf_jval(
                        #[trigger] fs[i].1,
                    ) by {
                        assert(fs[i].1 is Text);
                    }
                    assert forall|i: int, j: int| 0 <= i < j < fs.len() implies key_lt(
                        #[trigger] fs[i].0,
                        #[trigger] fs[j].0,
                    ) by {
                        assert(key_lt(fs[i].0, fs[j].0));
                    }
                    assert(wf_jval(jval(r)));
                }
            }
            r
        },
    }
}

impl JWK {
    /// The public projection: a copy of this key with the private scalar
    /// absent. The curve and the public coordinates carry over unchanged.
    pub fn to_public(&self) -> (r: JWK)
        ensures
            match (self.params, r.params) {
                (Params::EC(p), Params::EC(q)) => q.curve@ == p.curve@ && q.x_coordinate@
                    == p.x_coordinate@ && q.y_coordinate@ == p.y_coordinate@
                    && q.ecc_private_key is None,
            },
    {
        match &self.params {
            Params::EC(p) => JWK {
                params: Params::EC(
                    ECParams {
                        curve: p.curve.clone(),
                        x_coordinate: Base64urlUInt(copy_bytes(&p.x_coordinate.0)),
                        y_coordinate: Base64urlUInt(copy_bytes(&p.y_coordinate.0)),
                        ecc_private_key: Option::None,
                    },
                ),
            },
        }
    }
}

} // verus!

verus! {

/// True when the key carries a private scalar.
pub open spec fn spec_jwk_has_private(j: JWK) -> bool {
    match j.params {
        Params::EC(p) => p.ecc_private_key is Some,
    }
}

/// Relies on k256::SecretKey::random (seeded from rand's OsRng),
/// SecretKey::public_key, and the x/y accessors of the uncompressed SEC1 point
/// encoding: a freshly drawn secp256k1 keypair as raw bytes — 32-byte private
/// scalar and 32-byte affine coordinates. Of a random result nothing more can
/// be promised.
#[verifier::external_body]
fn generate_secp256k1_raw() -> (r: Option<(Vec<u8>, Vec<u8>, Vec<u8>)>)
    ensures
        match r {
            Option::Some(t) => t.0@.len() == 32 && t.1@.len() == 32 && t.2@.len() == 32,
            Option::None => true,
        },
{
    let mut rng = rand::rngs::OsRng {};
    let secret_key = k256::SecretKey::random(&mut rng);
    let sk_bytes = zeroize::Zeroizing::new(secret_key.to_bytes().to_vec());
    let public_key = secret_key.public_key();
    let point = k256::elliptic_curve::sec1::ToEncodedPoint::to_encoded_point(&public_key, false);
    match (point.x(), point.y()) {
        (Some(x), Some(y)) => Some((sk_bytes.to_vec(), x.to_vec(), y.to_vec())),
        _ => None,
    }
}

impl JWK {
    /// A secp256k1 JWK holding exactly the given raw private scalar and
    /// affine coordinates.
    pub fn from_secp256k1_parts(d: Vec<u8>, x: Vec<u8>, y: Vec<u8>) -> (r: JWK)
        ensures
            match r.params {
                Params::EC(p) => p.curve@ == "secp256k1"@ && p.x_coordinate@ == x@
                    && p.y_coordinate@ == y@ && (match p.ecc_private_key {
                    Option::Some(dd) => dd@ == d@,
                    Option::None => false,
                }),
            },
    {
        JWK {
            params: Params::EC(
                ECParams {
                    curve: "secp256k1".to_owned(),
                    x_coordinate: Base64urlUInt(x),
                    y_coordinate: Base64urlUInt(y),
                    ecc_private_key: Option::Some(Base64urlUInt(d)),
                },
            ),
        }
    }

    /// Generates a secp256k1 keypair: an elliptic-curve JWK with 32-byte
    /// coordinates and a 32-byte private scalar, carrying the very bytes the
    /// backing library produced.
    pub fn generate_secp256k1() -> (r: Result<JWK, Error>)
        ensures
            match r {
                Result::Ok(j) => match j.params {
                    Params::EC(p) => p.curve@ == "secp256k1"@ && p.x_coordinate@.len() == 32
                        && p.y_coordinate@.len() == 32 && (match p.ecc_private_key {
                        Option::Some(d) => d@.len() == 32,
                        Option::None => false,
                    }) && jwk_within_limits(j),
                },
                Result::Err(e) => e is MissingPoint,
            },
    {
        match generate_secp256k1_raw() {
            Option::Some((d, x, y)) => Result::Ok(JWK::from_secp256k1_parts(d, x, y)),
            Option::None => Result::Err(Error::MissingPoint),
        }
    }
}

} // verus!

verus! {

/// The JSON object of a key's public projection: `crv`, `kty`, `x`, `y`,
/// with the private scalar absent.
pub open spec fn spec_public_jwk_json(j: JWK) -> JsonVal {
    match j.params {
        Params::EC(p) => JsonVal::Object(
            seq![
                ("crv"@, JsonVal::Text(p.curve@)),
                ("kty"@, JsonVal::Text("EC"@)),
                ("x"@, JsonVal::Text(b64url_nopad(p.x_coordinate@))),
                ("y"@, JsonVal::Text(b64url_nopad(p.y_coordinate@))),
            ],
        ),
    }
}

} // verus!
