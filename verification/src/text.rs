//! Text plumbing shared by the assembler: the one trusted bridge from byte
//! vectors to `String`, a verified string comparison, and decimal rendering
//! for diagnostics.

use vstd::prelude::*;

verus! {

use vstd::string::StringSliceAdditionalSpecFns;
use vstd::utf8::{encode_utf8, decode_utf8, valid_utf8, encode_utf8_decode_utf8, partial_valid_utf8, partial_valid_utf8_extend_ascii_block};

/// Relies on `String::from_utf8`: it returns `Ok` exactly on valid UTF-8
/// input, and the returned string's UTF-8 encoding is the input bytes.
#[verifier::external_body]
pub(crate) fn string_from_utf8(bytes: Vec<u8>) -> (r: Option<String>)
    ensures
        r is Some <==> valid_utf8(bytes@),
        r matches Some(s) ==> encode_utf8(s@) == bytes@,
{
    String::from_utf8(bytes).ok()
}

/// UTF-8 encoding is injective: two character sequences with the same
/// encoding are the same sequence.
pub proof fn lemma_encode_utf8_injective(a: Seq<char>, b: Seq<char>)
    requires
        encode_utf8(a) == encode_utf8(b),
    ensures
        a == b,
{
    encode_utf8_decode_utf8(a);
    encode_utf8_decode_utf8(b);
}

/// A sequence of ASCII bytes is valid UTF-8.
pub proof fn lemma_ascii_valid_utf8(s: Seq<u8>)
    requires
        forall|i: int| 0 <= i < s.len() ==> s[i] < 128,
    ensures
        valid_utf8(s),
{
    assert(partial_valid_utf8(s, 0)) by {
        assert(s.subrange(0, 0) =~= Seq::<u8>::empty());
    }
    partial_valid_utf8_extend_ascii_block(s, 0, s.len() as int);
    assert(s.subrange(0, s.len() as int) =~= s);
}

/// Two strings are equal as character sequences exactly when their UTF-8
/// encodings are equal byte for byte.
pub fn str_eq(a: &str, b: &str) -> (r: bool)
    ensures
        r == (a@ == b@),
{
    let ab = a.as_bytes();
    let bb = b.as_bytes();
    if ab.len() != bb.len() {
        proof {
            if a@ == b@ {
                assert(a.spec_bytes() == b.spec_bytes());
            }
        }
        return false;
    }
    let mut i: usize = 0;
    while i < ab.len()
        invariant
            ab@ == a.spec_bytes(),
            bb@ == b.spec_bytes(),
            ab@.len() == bb@.len(),
            0 <= i <= ab@.len(),
            forall|j: int| 0 <= j < i ==> ab@[j] == bb@[j],
        decreases ab@.len() - i,
    {
        if ab[i] != bb[i] {
            proof {
                if a@ == b@ {
                    assert(a.spec_bytes() == b.spec_bytes());
                }
            }
            return false;
        }
        i += 1;
    }
    proof {
        assert(a.spec_bytes() =~= b.spec_bytes());
        lemma_encode_utf8_injective(a@, b@);
    }
    true
}

/// The decimal digit bytes of `n`, most significant first.
pub open spec fn spec_dec_digits(n: nat) -> Seq<u8>
    decreases n,
{
    if n < 10 {
        seq![(48 + n) as u8]
    } else {
        spec_dec_digits(n / 10).push((48 + n % 10) as u8)
    }
}

/// Render a number as its decimal digit bytes, most significant first.
pub fn dec_digits(n: u32) -> (r: Vec<u8>)
    ensures
        r@ == spec_dec_digits(n as nat),
    decreases n,
{
    if n < 10 {
        let mut v: Vec<u8> = Vec::new();
        v.push(48 + (n as u8));
        proof {
            assert(v@ =~= spec_dec_digits(n as nat));
        }
        v
    } else {
        let mut v = dec_digits(n / 10);
        v.push(48 + ((n % 10) as u8));
        v
    }
}

/// The decimal digits of a number are ASCII bytes.
pub proof fn lemma_dec_digits_ascii(n: nat)
    ensures
        forall|i: int|
            0 <= i < spec_dec_digits(n).len() ==> #[trigger] spec_dec_digits(n)[i] < 128,
    decreases n,
{
    if n >= 10 {
        lemma_dec_digits_ascii(n / 10);
        let p = spec_dec_digits(n / 10);
        assert forall|i: int|
            0 <= i < spec_dec_digits(n).len() implies #[trigger] spec_dec_digits(n)[i]
            < 128 by {
            if i < p.len() {
                assert(spec_dec_digits(n)[i] == p[i]);
            }
        }
    }
}

/// Render a number as a decimal `String`, for diagnostics.
pub fn dec_string(n: u32) -> (r: String)
    ensures
        encode_utf8(r@) == spec_dec_digits(n as nat),
{
    let digits = dec_digits(n);
    proof {
        lemma_dec_digits_ascii(n as nat);
    }
    let s = string_from_utf8(digits);
    match s {
        Some(s) => s,
        None => {
            proof {
                lemma_ascii_valid_utf8(spec_dec_digits(n as nat));
            }
            // unreachable: ASCII digits are valid UTF-8
            String::new()
        },
    }
}

} // verus!
