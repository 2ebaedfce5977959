//! The canonical serializer: field elements and curve-point coordinates are
//! encoded as their fixed-width byte strings, byte-reversed from the
//! backend's native order and hex-encoded under a fixed prefix; decoding
//! inverts the procedure exactly.

use vstd::prelude::*;

use crate::field::fq_bytes_of;
use crate::field::fq_from_bytes;
use crate::field::fq_to_bytes;
use crate::field::fr_bytes_of;
use crate::field::fr_from_bytes;
use crate::field::fr_to_bytes;

verus! {

/// A serialized point of the first group: the two coordinates as prefixed
/// hex strings.
pub struct G1Affine(pub String, pub String);

/// A serialized point of the second group: two quadratic-extension
/// coordinates, each as its two prefixed hex limbs.
pub struct G2Affine(pub (String, String), pub (String, String));

/// A serialized point of a second group whose coordinates lie in the base
/// field: the two coordinates as prefixed hex strings.
pub struct G2AffineFq(pub String, pub String);

/// The lowercase hex digit of a nibble.
pub open spec fn hex_digit(n: u8) -> char {
    if n == 0 {
        '0'
    } else if n == 1 {
        '1'
    } else if n == 2 {
        '2'
    } else if n == 3 {
        '3'
    } else if n == 4 {
        '4'
    } else if n == 5 {
        '5'
    } else if n == 6 {
        '6'
    } else if n == 7 {
        '7'
    } else if n == 8 {
        '8'
    } else if n == 9 {
        '9'
    } else if n == 10 {
        'a'
    } else if n == 11 {
        'b'
    } else if n == 12 {
        'c'
    } else if n == 13 {
        'd'
    } else if n == 14 {
        'e'
    } else if n == 15 {
        'f'
    } else {
        '0'
    }
}

/// The nibble a lowercase hex digit denotes, if any.
pub open spec fn hex_val(c: char) -> Option<u8> {
    if c == '0' {
        Some(0u8)
    } else if c == '1' {
        Some(1u8)
    } else if c == '2' {
        Some(2u8)
    } else if c == '3' {
        Some(3u8)
    } else if c == '4' {
        Some(4u8)
    } else if c == '5' {
        Some(5u8)
    } else if c == '6' {
        Some(6u8)
    } else if c == '7' {
        Some(7u8)
    } else if c == '8' {
        Some(8u8)
    } else if c == '9' {
        Some(9u8)
    } else if c == 'a' {
        Some(10u8)
    } else if c == 'b' {
        Some(11u8)
    } else if c == 'c' {
        Some(12u8)
    } else if c == 'd' {
        Some(13u8)
    } else if c == 'e' {
        Some(14u8)
    } else if c == 'f' {
        Some(15u8)
    } else {
        None
    }
}

/// The lowercase hex encoding of a byte string, two digits per byte, high
/// nibble first.
pub open spec fn hex_of(b: Seq<u8>) -> Seq<char>
    decreases b.len(),
{
    if b.len() == 0 {
        Seq::empty()
    } else {
        hex_of(b.drop_last()) + seq![hex_digit(b.last() / 16), hex_digit(b.last() % 16)]
    }
}

/// A hex string under the fixed interchange prefix.
pub open spec fn with_prefix(s: Seq<char>) -> Seq<char> {
    seq!['0', 'x'] + s
}

/// The canonical interchange encoding of a scalar-field element.
pub open spec fn fr_encoding(e: ark_bn254::Fr) -> Seq<char> {
    with_prefix(hex_of(fr_bytes_of(e).reverse()))
}

/// The canonical interchange encoding of one base-field coordinate.
pub open spec fn fq_slot_encoding(e: ark_bn254::Fq) -> Seq<char> {
    with_prefix(hex_of(fq_bytes_of(e).reverse()))
}

/// Hex encoding doubles the length and encodes each byte at its own pair of
/// positions.
proof fn lemma_hex_index(m: Seq<u8>, i: int)
    ensures
        hex_of(m).len() == 2 * m.len(),
        0 <= i < m.len() ==> hex_of(m)[2 * i] == hex_digit(m[i] / 16) && hex_of(m)[2 * i + 1]
            == hex_digit(m[i] % 16),
    decreases m.len(),
{
    if m.len() > 0 {
        lemma_hex_index(m.drop_last(), i);
        if 0 <= i < m.len() - 1 {
            assert(m.drop_last()[i] == m[i]);
        }
    }
}

/// Every hex digit decodes back to its nibble, and only to it.
proof fn lemma_digit_val()
    ensures
        forall|n: u8| n < 16 ==> #[trigger] hex_val(hex_digit(n)) == Some(n),
        forall|c: char| #[trigger] hex_val(c) is Some ==> hex_val(c)->Some_0 < 16 && c
            == hex_digit(hex_val(c)->Some_0),
{
}

/// Hex encoding is injective.
proof fn lemma_hex_inj(a: Seq<u8>, b: Seq<u8>)
    requires
        hex_of(a) == hex_of(b),
    ensures
        a == b,
    decreases a.len(),
{
    lemma_hex_index(a, 0);
    lemma_hex_index(b, 0);
    if a.len() == 0 {
        assert(a =~= b);
    } else {
        lemma_digit_val();
        let i = a.len() - 1;
        lemma_hex_index(a, i);
        lemma_hex_index(b, i);
        assert(hex_val(hex_digit(a[i] / 16)) == Some(a[i] / 16));
        assert(hex_val(hex_digit(b[i] / 16)) == Some(b[i] / 16));
        assert(a[i] / 16 == b[i] / 16);
        assert(a[i] % 16 == b[i] % 16);
        assert(a[i] == b[i]);
        assert(hex_of(a.drop_last()) =~= hex_of(a).take(2 * i));
        assert(hex_of(b.drop_last()) =~= hex_of(b).take(2 * i));
        lemma_hex_inj(a.drop_last(), b.drop_last());
        assert forall|k: int| 0 <= k < a.len() implies a[k] == b[k] by {
            if k < a.len() - 1 {
                assert(a.drop_last()[k] == a[k]);
                assert(b.drop_last()[k] == b[k]);
            }
        }
        assert(a =~= b);
    }
}

/// Concatenation with a common prefix cancels.
proof fn lemma_prefix_cancel(p: Seq<char>, a: Seq<char>, b: Seq<char>)
    requires
        p + a == p + b,
    ensures
        a == b,
{
    assert((p + a).len() == p.len() + a.len());
    assert((p + b).len() == p.len() + b.len());
    assert(a.len() == b.len());
    assert forall|k: int| 0 <= k < a.len() implies a[k] == b[k] by {
        assert(0 <= p.len() + k < (p + a).len());
        assert((p + a)[p.len() + k] == a[k]);
        assert((p + b)[p.len() + k] == b[k]);
    }
    assert(a =~= b);
}

/// Byte reversal is injective.
proof fn lemma_reverse_inj(a: Seq<u8>, b: Seq<u8>)
    requires
        a.reverse() == b.reverse(),
    ensures
        a == b,
{
    assert(a.reverse().len() == a.len());
    assert(b.reverse().len() == b.len());
    assert(a.len() == b.len());
    assert forall|k: int| 0 <= k < a.len() implies a[k] == b[k] by {
        assert(0 <= a.len() - 1 - k < a.len());
        assert(a.reverse()[a.len() - 1 - k] == a[a.len() - 1 - (a.len() - 1 - k)]);
        assert(b.reverse()[b.len() - 1 - k] == b[b.len() - 1 - (b.len() - 1 - k)]);
    }
    assert(a =~= b);
}

/// The bytes of `v`, last first.
fn reversed(v: &Vec<u8>) -> (r: Vec<u8>)
    ensures
        r@ == v@.reverse(),
{
    let mut out: Vec<u8> = Vec::new();
    let mut i: usize = 0;
    while i < v.len()
        invariant
            i <= v@.len(),
            out@.len() == i,
            forall|k: int| 0 <= k < i ==> out@[k] == v@[v@.len() - 1 - k],
        decreases v@.len() - i,
    {
        out.push(v[v.len() - 1 - i]);
        i += 1;
    }
    assert(out@ =~= v@.reverse());
    out
}

/// Relies on hex::encode: lowercase hexadecimal, two digits per byte, high
/// nibble first, here under the fixed interchange prefix.
#[verifier::external_body]
fn hex_encode_prefixed(b: &Vec<u8>) -> (r: String)
    ensures
        r@ == with_prefix(hex_of(b@)),
{
    format!("0x{}", hex::encode(b.as_slice()))
}

/// The nibble an encountered character denotes, if any.
fn hex_digit_val(c: char) -> (r: Option<u8>)
    ensures
        r == hex_val(c),
{
    if c == '0' {
        Some(0u8)
    } else if c == '1' {
        Some(1u8)
    } else if c == '2' {
        Some(2u8)
    } else if c == '3' {
        Some(3u8)
    } else if c == '4' {
        Some(4u8)
    } else if c == '5' {
        Some(5u8)
    } else if c == '6' {
        Some(6u8)
    } else if c == '7' {
        Some(7u8)
    } else if c == '8' {
        Some(8u8)
    } else if c == '9' {
        Some(9u8)
    } else if c == 'a' {
        Some(10u8)
    } else if c == 'b' {
        Some(11u8)
    } else if c == 'c' {
        Some(12u8)
    } else if c == 'd' {
        Some(13u8)
    } else if c == 'e' {
        Some(14u8)
    } else if c == 'f' {
        Some(15u8)
    } else {
        None
    }
}

/// Decode one prefixed 64-digit hex slot back into its 32 native-order
/// bytes: the exact inverse of reversing and hex-encoding them.
fn decode_slot(s: &str) -> (r: Option<Vec<u8>>)
    ensures
        r is Some ==> r->Some_0@.len() == 32 && s@ == with_prefix(
            hex_of(r->Some_0@.reverse()),
        ),
        r is None ==> forall|e: Seq<u8>| e.len() == 32 ==> s@ != with_prefix(
            hex_of(#[trigger] e.reverse()),
        ),
{
    let n = s.unicode_len();
    if n != 66 {
        proof {
            assert forall|e: Seq<u8>| e.len() == 32 implies s@ != with_prefix(
                hex_of(#[trigger] e.reverse()),
            ) by {
                lemma_hex_index(e.reverse(), 0);
            }
        }
        return None;
    }
    if s.get_char(0) != '0' || s.get_char(1) != 'x' {
        proof {
            assert forall|e: Seq<u8>| e.len() == 32 implies s@ != with_prefix(
                hex_of(#[trigger] e.reverse()),
            ) by {
                assert(with_prefix(hex_of(e.reverse()))[0] == '0');
                assert(with_prefix(hex_of(e.reverse()))[1] == 'x');
            }
        }
        return None;
    }
    let mut hexorder: Vec<u8> = Vec::new();
    let mut i: usize = 0;
    while i < 32
        invariant
            i <= 32,
            hexorder@.len() == i,
            s@.len() == 66,
            s@[0] == '0',
            s@[1] == 'x',
            forall|k: int|
                0 <= k < i ==> s@[2 + 2 * k] == hex_digit(#[trigger] hexorder@[k] / 16)
                    && s@[2 + 2 * k + 1] == hex_digit(hexorder@[k] % 16),
        decreases 32 - i,
    {
        let c1 = s.get_char(2 + 2 * i);
        let c2 = s.get_char(3 + 2 * i);
        let hi = match hex_digit_val(c1) {
            Some(d) => d,
            None => {
                proof {
                    lemma_digit_val();
                    assert forall|e: Seq<u8>| e.len() == 32 implies s@ != with_prefix(
                        hex_of(#[trigger] e.reverse()),
                    ) by {
                        lemma_hex_index(e.reverse(), i as int);
                        assert(e.reverse()[i as int] / 16 < 16);
                        assert(with_prefix(hex_of(e.reverse()))[2 + 2 * i] == hex_digit(
                            e.reverse()[i as int] / 16,
                        ));
                    }
                }
                return None;
            },
        };
        let lo = match hex_digit_val(c2) {
            Some(d) => d,
            None => {
                proof {
                    lemma_digit_val();
                    assert forall|e: Seq<u8>| e.len() == 32 implies s@ != with_prefix(
                        hex_of(#[trigger] e.reverse()),
                    ) by {
                        lemma_hex_index(e.reverse(), i as int);
                        assert(e.reverse()[i as int] % 16 < 16);
                        assert(with_prefix(hex_of(e.reverse()))[2 + 2 * i + 1] == hex_digit(
                            e.reverse()[i as int] % 16,
                        ));
                    }
                }
                return None;
            },
        };
        proof {
            lemma_digit_val();
            assert(hi < 16 && c1 == hex_digit(hi));
            assert(lo < 16 && c2 == hex_digit(lo));
            assert((hi * 16 + lo) / 16 == hi && (hi * 16 + lo) % 16 == lo) by (nonlinear_arith)
                requires hi < 16 && lo < 16;
        }
        hexorder.push(hi * 16 + lo);
        i += 1;
    }
    let out = reversed(&hexorder);
    proof {
        assert(out@.reverse() =~= hexorder@) by {
            assert(out@ == hexorder@.reverse());
            assert forall|k: int| 0 <= k < hexorder@.len() implies out@.reverse()[k]
                == hexorder@[k] by {
                assert(out@.reverse()[k] == out@[out@.len() - 1 - k]);
            }
        }
        assert forall|k: int| 0 <= k < 66 implies s@[k] == with_prefix(hex_of(hexorder@))[k]
            by {
            lemma_hex_index(hexorder@, 0);
            if k >= 2 {
                let q = (k - 2) / 2;
                lemma_hex_index(hexorder@, q);
                assert(0 <= q < 32);
                if (k - 2) % 2 == 0 {
                    assert(k == 2 + 2 * q);
                    assert(with_prefix(hex_of(hexorder@))[k] == hex_of(hexorder@)[2 * q]);
                } else {
                    assert(k == 2 + 2 * q + 1);
                    assert(with_prefix(hex_of(hexorder@))[k] == hex_of(hexorder@)[2 * q + 1]);
                }
            }
        }
        lemma_hex_index(hexorder@, 0);
        assert(s@ =~= with_prefix(hex_of(out@.reverse())));
    }
    Some(out)
}

/// Encode a scalar-field element: its canonical bytes, reversed and
/// hex-encoded under the fixed prefix. Deterministic and total.
pub fn parse_fr(e: &ark_bn254::Fr) -> (r: String)
    ensures
        r@ == fr_encoding(*e),
        fr_bytes_of(*e).len() == 32,
{
    let bytes = fr_to_bytes(e);
    let rev = reversed(&bytes);
    hex_encode_prefixed(&rev)
}

/// Decode a scalar-field element from its canonical interchange encoding:
/// exactly inverts `parse_fr`.
pub fn decode_fr(s: &str) -> (r: Option<ark_bn254::Fr>)
    ensures
        forall|x: ark_bn254::Fr|
            fr_bytes_of(x).len() == 32 && s@ == fr_encoding(x) ==> r == Some(x),
{
    match decode_slot(s) {
        Some(bytes) => {
            let v = fr_from_bytes(&bytes);
            proof {
                assert forall|x: ark_bn254::Fr|
                    fr_bytes_of(x).len() == 32 && s@ == fr_encoding(x) implies v == Some(x) by {
                    lemma_prefix_cancel(
                        seq!['0', 'x'],
                        hex_of(bytes@.reverse()),
                        hex_of(fr_bytes_of(x).reverse()),
                    );
                    lemma_hex_inj(bytes@.reverse(), fr_bytes_of(x).reverse());
                    lemma_reverse_inj(bytes@, fr_bytes_of(x));
                }
            }
            v
        },
        None => None,
    }
}

/// Encode one base-field coordinate, as `parse_fr` does for the scalar
/// field.
fn parse_fq(e: &ark_bn254::Fq) -> (r: String)
    ensures
        r@ == fq_slot_encoding(*e),
        fq_bytes_of(*e).len() == 32,
{
    let bytes = fq_to_bytes(e);
    let rev = reversed(&bytes);
    hex_encode_prefixed(&rev)
}

/// Decode one base-field coordinate: exactly inverts `parse_fq`.
fn decode_fq(s: &str) -> (r: Option<ark_bn254::Fq>)
    ensures
        forall|x: ark_bn254::Fq|
            fq_bytes_of(x).len() == 32 && s@ == fq_slot_encoding(x) ==> r == Some(x),
{
    match decode_slot(s) {
        Some(bytes) => {
            let v = fq_from_bytes(&bytes);
            proof {
                assert forall|x: ark_bn254::Fq|
                    fq_bytes_of(x).len() == 32 && s@ == fq_slot_encoding(x) implies v == Some(
                    x,
                ) by {
                    lemma_prefix_cancel(
                        seq!['0', 'x'],
                        hex_of(bytes@.reverse()),
                        hex_of(fq_bytes_of(x).reverse()),
                    );
                    lemma_hex_inj(bytes@.reverse(), fq_bytes_of(x).reverse());
                    lemma_reverse_inj(bytes@, fq_bytes_of(x));
                }
            }
            v
        },
        None => None,
    }
}

/// Encode an affine point of the first group from its two base-field
/// coordinates: the point's byte encoding splits exactly in half (the
/// backend's trailing infinity-flag byte stripped), and each half is
/// reversed and hex-encoded.
pub fn parse_g1(x: &ark_bn254::Fq, y: &ark_bn254::Fq) -> (r: G1Affine)
    ensures
        r.0@ == fq_slot_encoding(*x),
        r.1@ == fq_slot_encoding(*y),
        fq_bytes_of(*x).len() == 32,
        fq_bytes_of(*y).len() == 32,
{
    G1Affine(parse_fq(x), parse_fq(y))
}

/// Decode the two coordinates of a first-group point: exactly inverts
/// `parse_g1`.
pub fn decode_g1(p: &G1Affine) -> (r: Option<(ark_bn254::Fq, ark_bn254::Fq)>)
    ensures
        forall|x: ark_bn254::Fq, y: ark_bn254::Fq|
            fq_bytes_of(x).len() == 32 && fq_bytes_of(y).len() == 32 && p.0@
                == fq_slot_encoding(x) && p.1@ == fq_slot_encoding(y) ==> r == Some((x, y)),
{
    match decode_fq(&p.0) {
        Some(x) => match decode_fq(&p.1) {
            Some(y) => Some((x, y)),
            None => None,
        },
        None => None,
    }
}

/// Encode an affine point of the second group from the four base-field
/// limbs of its two quadratic-extension coordinates: the point's byte
/// encoding splits exactly into four limbs (the trailing infinity-flag byte
/// stripped), each reversed and hex-encoded, grouped two by two into the two
/// extension coordinates.
pub fn parse_g2(
    x_c0: &ark_bn254::Fq,
    x_c1: &ark_bn254::Fq,
    y_c0: &ark_bn254::Fq,
    y_c1: &ark_bn254::Fq,
) -> (r: G2Affine)
    ensures
        r.0.0@ == fq_slot_encoding(*x_c0),
        r.0.1@ == fq_slot_encoding(*x_c1),
        r.1.0@ == fq_slot_encoding(*y_c0),
        r.1.1@ == fq_slot_encoding(*y_c1),
        fq_bytes_of(*x_c0).len() == 32,
        fq_bytes_of(*x_c1).len() == 32,
        fq_bytes_of(*y_c0).len() == 32,
        fq_bytes_of(*y_c1).len() == 32,
{
    G2Affine((parse_fq(x_c0), parse_fq(x_c1)), (parse_fq(y_c0), parse_fq(y_c1)))
}

/// Decode the four limbs of a second-group point: exactly inverts
/// `parse_g2`.
pub fn decode_g2(p: &G2Affine) -> (r: Option<
    (ark_bn254::Fq, ark_bn254::Fq, ark_bn254::Fq, ark_bn254::Fq),
>)
    ensures
        forall|a: ark_bn254::Fq, b: ark_bn254::Fq, c: ark_bn254::Fq, d: ark_bn254::Fq|
            fq_bytes_of(a).len() == 32 && fq_bytes_of(b).len() == 32 && fq_bytes_of(c).len()
                == 32 && fq_bytes_of(d).len() == 32 && p.0.0@ == fq_slot_encoding(a) && p.0.1@
                == fq_slot_encoding(b) && p.1.0@ == fq_slot_encoding(c) && p.1.1@
                == fq_slot_encoding(d) ==> r == Some((a, b, c, d)),
{
    let a = match decode_fq(&p.0.0) {
        Some(v) => v,
        None => {
            return None;
        },
    };
    let b = match decode_fq(&p.0.1) {
        Some(v) => v,
        None => {
            return None;
        },
    };
    let c = match decode_fq(&p.1.0) {
        Some(v) => v,
        None => {
            return None;
        },
    };
    let d = match decode_fq(&p.1.1) {
        Some(v) => v,
        None => {
            return None;
        },
    };
    Some((a, b, c, d))
}

/// Encode an affine second-group point whose coordinates lie in the base
/// field, as `parse_g1` does.
pub fn parse_g2_fq(x: &ark_bn254::Fq, y: &ark_bn254::Fq) -> (r: G2AffineFq)
    ensures
        r.0@ == fq_slot_encoding(*x),
        r.1@ == fq_slot_encoding(*y),
        fq_bytes_of(*x).len() == 32,
        fq_bytes_of(*y).len() == 32,
{
    G2AffineFq(parse_fq(x), parse_fq(y))
}

/// The serialization round trip for a scalar-field element: decoding an
/// encoding returns the element itself.
pub fn fr_round_trip(e: &ark_bn254::Fr) -> (r: Option<ark_bn254::Fr>)
    ensures
        r == Some(*e),
{
    let s = parse_fr(e);
    decode_fr(&s)
}

/// The serialization round trip for a first-group point's coordinates:
/// decoding an encoding returns the coordinates themselves.
pub fn g1_round_trip(x: &ark_bn254::Fq, y: &ark_bn254::Fq) -> (r: Option<
    (ark_bn254::Fq, ark_bn254::Fq),
>)
    ensures
        r == Some((*x, *y)),
{
    let p = parse_g1(x, y);
    decode_g1(&p)
}

/// The serialization round trip for a second-group point's limbs: decoding
/// an encoding returns the limbs themselves.
pub fn g2_round_trip(
    x_c0: &ark_bn254::Fq,
    x_c1: &ark_bn254::Fq,
    y_c0: &ark_bn254::Fq,
    y_c1: &ark_bn254::Fq,
) -> (r: Option<(ark_bn254::Fq, ark_bn254::Fq, ark_bn254::Fq, ark_bn254::Fq)>)
    ensures
        r == Some((*x_c0, *x_c1, *y_c0, *y_c1)),
{
    let p = parse_g2(x_c0, x_c1, y_c0, y_c1);
    decode_g2(&p)
}

} // verus!
