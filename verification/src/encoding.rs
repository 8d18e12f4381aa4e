//! Text-or-binary heuristics and character decoding. The byte heuristics
//! are verified; encoding detection and decoding go through the detection
//! and decoding engines, whose results are given names here.
use vstd::prelude::*;

use vstd::utf8::valid_utf8;

verus! {

/// The name of the encoding the detector settles on for these bytes:
/// a byte-order mark decides outright, statistics otherwise.
pub uninterp spec fn detected_encoding(data: Seq<u8>) -> Seq<char>;

/// Relies on `encoding_rs::Encoding::for_bom` and
/// `chardetng::EncodingDetector::guess`: both are pure functions of the
/// bytes fed to them.
#[verifier::external_body]
pub fn detect_encoding_name(data: &[u8]) -> (r: String)
    ensures
        r@ == detected_encoding(data@),
{
    let encoding = match encoding_rs::Encoding::for_bom(data) {
        Some((enc, _)) => enc,
        None => {
            let mut d = chardetng::EncodingDetector::new(chardetng::Iso2022JpDetection::Allow);
            d.feed(data, true);
            d.guess(None, chardetng::Utf8Detection::Allow)
        },
    };
    encoding.name().to_string()
}

/// The decoding engine's answer for these bytes under their detected
/// encoding: the text, or nothing when malformed sequences were met.
pub uninterp spec fn strict_decoded(data: Seq<u8>) -> Option<Seq<char>>;

/// Relies on `encoding_rs::Encoding::decode` (fed by the detector
/// above): the answer is a pure function of the bytes, and empty input
/// decodes cleanly to the empty string.
#[verifier::external_body]
fn decode_strict(data: &[u8]) -> (r: Option<String>)
    ensures
        (r is Some) == (strict_decoded(data@) is Some),
        r is Some ==> r->Some_0@ == strict_decoded(data@)->Some_0,
        data@.len() == 0 ==> r is Some && r->Some_0@.len() == 0,
{
    let encoding = match encoding_rs::Encoding::for_bom(data) {
        Some((enc, _)) => enc,
        None => {
            let mut d = chardetng::EncodingDetector::new(chardetng::Iso2022JpDetection::Allow);
            d.feed(data, true);
            d.guess(None, chardetng::Utf8Detection::Allow)
        },
    };
    let (decoded, _, had_errors) = encoding.decode(data);
    if had_errors { None } else { Some(decoded.to_string()) }
}

/// The text std recovers from these bytes read as UTF-8, undecodable
/// sequences replaced.
pub uninterp spec fn lossy_utf8(data: Seq<u8>) -> Seq<char>;

/// Relies on `String::from_utf8_lossy` (std): a pure function of the
/// bytes; empty input gives the empty string.
#[verifier::external_body]
fn utf8_lossy(data: &[u8]) -> (r: String)
    ensures
        r@ == lossy_utf8(data@),
        data@.len() == 0 ==> r@.len() == 0,
{
    String::from_utf8_lossy(data).to_string()
}

/// The text the pipeline settles on: the engine's decoding under the
/// detected encoding, or the lossy UTF-8 reading where that decoding
/// met malformed sequences.
pub open spec fn decoded_text(data: Seq<u8>) -> Seq<char> {
    match strict_decoded(data) {
        Some(t) => t,
        None => lossy_utf8(data),
    }
}

/// Decodes bytes to text: the strict engine's answer, falling back to
/// the lossy UTF-8 reading on malformed input.
pub fn decode_bytes(data: &[u8]) -> (r: String)
    ensures
        r@ == decoded_text(data@),
        data@.len() == 0 ==> r@.len() == 0,
{
    match decode_strict(data) {
        Some(s) => s,
        None => utf8_lossy(data),
    }
}

pub open spec fn is_nul(b: u8) -> bool {
    b == 0
}

pub open spec fn is_odd_control(b: u8) -> bool {
    b < 32 && b != 10 && b != 13 && b != 9
}

pub open spec fn count_bytes(s: Seq<u8>, pred: spec_fn(u8) -> bool) -> int
    decreases s.len(),
{
    if s.len() == 0 {
        0
    } else {
        count_bytes(s.drop_last(), pred) + (if pred(s.last()) {
            1int
        } else {
            0int
        })
    }
}

/// The text heuristic over a sample of at most 8192 bytes: empty data is
/// text; otherwise NUL bytes must not pass a tenth of the sample, and
/// control bytes beside tab, line feed and carriage return must stay
/// below a twentieth (at least one allowed).
pub open spec fn likely_text_spec(data: Seq<u8>) -> bool {
    if data.len() == 0 {
        true
    } else {
        let sample = if data.len() > 8192 {
            data.take(8192)
        } else {
            data
        };
        let nuls = count_bytes(sample, |b: u8| is_nul(b));
        let controls = count_bytes(sample, |b: u8| is_odd_control(b));
        let threshold = if sample.len() / 20 > 1 {
            sample.len() as int / 20
        } else {
            1int
        };
        nuls <= sample.len() as int / 10 && controls < threshold
    }
}

/// Do these bytes look like text?
pub fn is_likely_text(data: &[u8]) -> (r: bool)
    ensures
        r == likely_text_spec(data@),
{
    let n = data.len();
    if n == 0 {
        return true;
    }
    let sample_len: usize = if n > 8192 {
        8192
    } else {
        n
    };
    let ghost sample = if data@.len() > 8192 {
        data@.take(8192)
    } else {
        data@
    };
    let ghost nul_pred = |b: u8| is_nul(b);
    let ghost ctl_pred = |b: u8| is_odd_control(b);
    let mut nuls: usize = 0;
    let mut controls: usize = 0;
    let mut i: usize = 0;
    proof {
        assert(sample.take(0) =~= Seq::<u8>::empty());
    }
    while i < sample_len
        invariant
            i <= sample_len,
            sample_len == sample.len(),
            sample_len <= data@.len(),
            sample == (if data@.len() > 8192 {
                data@.take(8192)
            } else {
                data@
            }),
            nul_pred == (|b: u8| is_nul(b)),
            ctl_pred == (|b: u8| is_odd_control(b)),
            nuls == count_bytes(sample.take(i as int), nul_pred),
            controls == count_bytes(sample.take(i as int), ctl_pred),
            nuls <= i,
            controls <= i,
        decreases sample_len - i,
    {
        proof {
            assert(sample.take(i + 1).drop_last() =~= sample.take(i as int));
            assert(sample.take(i + 1).last() == sample[i as int]);
            assert(sample[i as int] == data@[i as int]);
        }
        let b = data[i];
        if b == 0 {
            nuls = nuls + 1;
        }
        if b < 32 && b != 10 && b != 13 && b != 9 {
            controls = controls + 1;
        }
        i = i + 1;
    }
    proof {
        assert(sample.take(sample.len() as int) =~= sample);
    }
    if nuls > sample_len / 10 {
        return false;
    }
    let threshold: usize = if sample_len / 20 > 1 {
        sample_len / 20
    } else {
        1
    };
    controls < threshold
}

/// Are these bytes well-formed UTF-8? Relies on `std::str::from_utf8`,
/// whose acceptance is exactly UTF-8 validity.
#[verifier::external_body]
pub fn is_utf8(data: &[u8]) -> (r: bool)
    ensures
        r == valid_utf8(data@),
{
    std::str::from_utf8(data).is_ok()
}

} // verus!
