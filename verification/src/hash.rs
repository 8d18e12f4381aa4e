//! Content hashing: the digest engine's output behind a name, and a
//! verified lowercase-hex rendering of it.
use vstd::prelude::*;

use sha2::Digest;

use vstd::string::StringSliceAdditionalSpecFns;

use crate::text::{digit_char, string_of};

verus! {

/// The 32 digest bytes the hash engine computes over a byte string.
pub uninterp spec fn sha256_of(data: Seq<u8>) -> Seq<u8>;

/// Relies on `sha2::Sha256::digest`: the digest is 32 bytes and a pure
/// function of the input bytes.
#[verifier::external_body]
fn sha256_raw(data: &[u8]) -> (r: Vec<u8>)
    ensures
        r@ == sha256_of(data@),
        r@.len() == 32,
{
    sha2::Sha256::digest(data).to_vec()
}

/// One byte rendered as two lowercase hex digits.
pub open spec fn hex_byte(b: u8) -> Seq<char> {
    seq![hex_digit(b / 16), hex_digit(b % 16)]
}

pub open spec fn hex_digit(d: u8) -> char {
    if d < 10 {
        digit_char(d as int)
    } else {
        (('a' as u8) + (d - 10)) as char
    }
}

/// A byte string rendered in lowercase hex, two digits a byte.
pub open spec fn hex_of(data: Seq<u8>) -> Seq<char>
    decreases data.len(),
{
    if data.len() == 0 {
        Seq::empty()
    } else {
        hex_of(data.drop_last()) + hex_byte(data.last())
    }
}

fn to_hex(data: &Vec<u8>) -> (r: Vec<char>)
    ensures
        r@ == hex_of(data@),
        r@.len() == 2 * data@.len(),
{
    let mut r: Vec<char> = Vec::new();
    let mut i: usize = 0;
    proof {
        assert(data@.take(0) =~= Seq::<u8>::empty());
    }
    while i < data.len()
        invariant
            i <= data@.len(),
            r@ == hex_of(data@.take(i as int)),
            r@.len() == 2 * i,
        decreases data.len() - i,
    {
        proof {
            assert(data@.take(i + 1).drop_last() =~= data@.take(i as int));
            assert(data@.take(i + 1).last() == data@[i as int]);
        }
        let b = data[i];
        let hi: u8 = b / 16;
        let lo: u8 = b % 16;
        let c1: char = if hi < 10 {
            (('0' as u8) + hi) as char
        } else {
            (('a' as u8) + (hi - 10)) as char
        };
        let c2: char = if lo < 10 {
            (('0' as u8) + lo) as char
        } else {
            (('a' as u8) + (lo - 10)) as char
        };
        r.push(c1);
        r.push(c2);
        proof {
            assert(c1 == hex_digit(data@[i as int] / 16));
            assert(c2 == hex_digit(data@[i as int] % 16));
            assert(r@ =~= hex_of(data@.take(i as int)) + hex_byte(data@[i as int]));
        }
        i = i + 1;
    }
    proof {
        assert(data@.take(data@.len() as int) =~= data@);
    }
    r
}

/// The digest of a byte string, in lowercase hex: 64 characters.
pub fn hash_bytes(data: &[u8]) -> (r: String)
    ensures
        r@ == hex_of(sha256_of(data@)),
        r@.len() == 64,
{
    let digest = sha256_raw(data);
    let hex = to_hex(&digest);
    string_of(&hex)
}

/// The digest of a string's bytes, in lowercase hex.
pub fn hash_string(text: &str) -> (r: String)
    ensures
        r@ == hex_of(sha256_of(text.spec_bytes())),
        r@.len() == 64,
{
    hash_bytes(text.as_bytes())
}

} // verus!
