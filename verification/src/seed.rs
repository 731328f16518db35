//! Seeds of 32 bytes from a text, for random data that can be had again.

use vstd::prelude::*;

verus! {

/// The seed with the text laid over it: the bytes of the text, as far as the
/// seed is long, and behind them the bytes of the seed as they were.
pub open spec fn overlaid(seed: Seq<u8>, text: Seq<u8>) -> Seq<u8> {
    Seq::new(
        seed.len(),
        |i: int|
            if i < text.len() {
                text[i]
            } else {
                seed[i]
            },
    )
}

/// The seed of 32 zeros.
pub open spec fn blank() -> Seq<u8> {
    Seq::new(32, |i: int| 0u8)
}

/// The bytes that `text` stands for as base64 in the standard alphabet, or
/// `None` where it is no such base64.
pub uninterp spec fn standard_decoding(text: Seq<u8>) -> Option<Seq<u8>>;

/// The seed that a text stands for, given what the text decodes to: the
/// decoded bytes where it is base64, else its own bytes, laid over a seed of
/// zeros.
pub open spec fn seed_of(decoded: Option<Seq<u8>>, text: Seq<u8>) -> Seq<u8> {
    match decoded {
        Some(bytes) => overlaid(blank(), bytes),
        None => overlaid(blank(), text),
    }
}

/// Calls `decode_config` of the crate `base64` with the standard alphabet,
/// and hands on the bytes of `Ok` as `Some` and any error as `None`.
///
/// It is taken on trust that the call gives the same result whenever it is
/// given the same text, and that it does not panic on a text of a length
/// that a slice can have.
#[verifier::external_body]
fn decode_standard(text: &[u8]) -> (r: Option<Vec<u8>>)
    requires
        text@.len() <= isize::MAX,
    ensures
        match r {
            Some(bytes) => standard_decoding(text@) == Some(bytes@),
            None => standard_decoding(text@) is None,
        },
{
    match base64::decode_config(text, base64::STANDARD) {
        Ok(bytes) => Some(bytes),
        Err(_) => None,
    }
}

/// Lays a text over a seed of 32 bytes: the text replaces the first bytes of
/// the seed, and what it has beyond 32 bytes is left out.
pub fn overlay(seed: [u8; 32], text: &[u8]) -> (r: [u8; 32])
    ensures
        r@ == overlaid(seed@, text@),
{
    let mut out = seed;
    let count: usize = if text.len() < 32 {
        text.len()
    } else {
        32
    };
    let mut i: usize = 0;
    while i < count
        invariant
            i <= count <= 32,
            count <= text.len(),
            forall|k: int| 0 <= k < i ==> out@[k] == text@[k],
            forall|k: int| i <= k < 32 ==> out@[k] == seed@[k],
        decreases count - i,
    {
        out[i] = text[i];
        i = i + 1;
    }
    out
}

/// The seed that `text` stands for, given what it decodes to as base64.
pub fn seed_from_decoded(decoded: &Option<Vec<u8>>, text: &[u8]) -> (r: [u8; 32])
    requires
        decoded matches Some(bytes) ==> bytes@.len() <= 32,
    ensures
        r@ == seed_of(
            match decoded {
                Some(bytes) => Some(bytes@),
                None => None,
            },
            text@,
        ),
{
    let zeros = [0u8;32];
    match decoded {
        Some(bytes) => overlay(zeros, bytes.as_slice()),
        None => overlay(zeros, text),
    }
}

/// The seed that `text` stands for, given what it decodes to as base64, or
/// `None` where it decodes to more than 32 bytes, which no seed can hold.
pub fn seed_from_outcome(decoded: &Option<Vec<u8>>, text: &[u8]) -> (r: Option<[u8; 32]>)
    ensures
        match r {
            Some(seed) => {
                &&& decoded matches Some(bytes) ==> bytes@.len() <= 32
                &&& seed@ == seed_of(
                    match decoded {
                        Some(bytes) => Some(bytes@),
                        None => None,
                    },
                    text@,
                )
            },
            None => decoded matches Some(bytes) && bytes@.len() > 32,
        },
{
    let fits = match decoded {
        Some(bytes) => bytes.len() <= 32,
        None => true,
    };
    if fits {
        Some(seed_from_decoded(decoded, text))
    } else {
        None
    }
}

/// The seed that `text` stands for: what it decodes to as base64 in the
/// standard alphabet, or its own bytes where it is no base64, laid over a
/// seed of zeros. There is none where the text decodes to more than 32
/// bytes.
pub fn seed_from_text(text: &[u8]) -> (r: Option<[u8; 32]>)
    requires
        text@.len() <= isize::MAX,
    ensures
        match r {
            Some(seed) => {
                &&& standard_decoding(text@) matches Some(bytes) ==> bytes.len() <= 32
                &&& seed@ == seed_of(standard_decoding(text@), text@)
            },
            None => standard_decoding(text@) matches Some(bytes) && bytes.len() > 32,
        },
{
    let decoded = decode_standard(text);
    seed_from_outcome(&decoded, text)
}

} // verus!
