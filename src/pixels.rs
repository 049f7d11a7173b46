//! The pixel codec: channel bytes to and from a binary or hex-text payload.

use vstd::prelude::*;
use crate::model::{PixelEncoding, DecodeError};
use crate::envelope::copy_all;

verus! {

/// The uppercase hex digit for a nibble.
pub open spec fn hex_digit(n: u8) -> u8 {
    if n < 10 { (48 + n) as u8 } else { (55 + n) as u8 }
}

/// Whether a byte is an ASCII hex digit, in either case.
pub open spec fn is_hex_byte(c: u8) -> bool {
    (48 <= c <= 57) || (65 <= c <= 70) || (97 <= c <= 102)
}

/// The value of an ASCII hex digit.
pub open spec fn hex_value(c: u8) -> u8 {
    if 48 <= c <= 57 {
        (c - 48) as u8
    } else if 65 <= c <= 70 {
        (c - 55) as u8
    } else {
        (c - 87) as u8
    }
}

/// Each byte as two uppercase hex characters, high nibble first.
pub open spec fn hex_encode(s: Seq<u8>) -> Seq<u8> {
    Seq::new(
        2 * s.len(),
        |i: int| if i % 2 == 0 { hex_digit(s[i / 2] / 16) } else { hex_digit(s[i / 2] % 16) },
    )
}

/// Text that `hex_decode` accepts: an even number of hex digits.
pub open spec fn is_hex_text(t: Seq<u8>) -> bool {
    t.len() % 2 == 0 && forall|i: int| 0 <= i < t.len() ==> is_hex_byte(#[trigger] t[i])
}

/// The bytes spelled by pairs of hex digits.
pub open spec fn hex_decode(t: Seq<u8>) -> Seq<u8> {
    Seq::new(t.len() / 2, |i: int| (hex_value(t[2 * i]) * 16 + hex_value(t[2 * i + 1])) as u8)
}

/// The payload that carries channel bytes in an encoding.
pub open spec fn payload_of(channels: Seq<u8>, encoding: PixelEncoding) -> Seq<u8> {
    match encoding {
        PixelEncoding::Binary => channels,
        PixelEncoding::Hex => hex_encode(channels),
    }
}

/// The channel bytes carried by a payload that must hold exactly `n` of them.
pub open spec fn channels_of(payload: Seq<u8>, encoding: PixelEncoding, n: nat) -> Result<Seq<u8>, DecodeError> {
    match encoding {
        PixelEncoding::Binary => if payload.len() == n {
            Ok(payload)
        } else {
            Err(DecodeError::CorruptPayload)
        },
        PixelEncoding::Hex => if payload.len() == 2 * n && is_hex_text(payload) {
            Ok(hex_decode(payload))
        } else {
            Err(DecodeError::CorruptPayload)
        },
    }
}

pub proof fn lemma_hex_digit(n: u8)
    requires
        n < 16,
    ensures
        is_hex_byte(hex_digit(n)),
        hex_value(hex_digit(n)) == n,
        hex_digit(n) != 10,
{
}

/// Hex text decodes back to the bytes it was made from.
pub proof fn lemma_hex_round_trip(s: Seq<u8>)
    ensures
        is_hex_text(hex_encode(s)),
        hex_decode(hex_encode(s)) == s,
        hex_encode(s).len() == 2 * s.len(),
{
    let t = hex_encode(s);
    assert forall|i: int| 0 <= i < t.len() implies is_hex_byte(#[trigger] t[i]) by {
        lemma_hex_digit(s[i / 2] / 16);
        lemma_hex_digit(s[i / 2] % 16);
    }
    assert forall|i: int| 0 <= i < s.len() implies #[trigger] hex_decode(t)[i] == s[i] by {
        assert((2 * i) / 2 == i);
        assert((2 * i + 1) / 2 == i);
        assert((2 * i) % 2 == 0);
        assert((2 * i + 1) % 2 == 1);
        lemma_hex_digit(s[i] / 16);
        lemma_hex_digit(s[i] % 16);
        let x = s[i];
        assert(((x / 16) * 16 + x % 16) as u8 == x) by (bit_vector);
    }
    assert(hex_decode(t) =~= s);
}

/// A payload decodes back to the channel bytes it was made from.
pub proof fn lemma_payload_round_trip(channels: Seq<u8>, encoding: PixelEncoding)
    ensures
        channels_of(payload_of(channels, encoding), encoding, channels.len()) == Ok::<Seq<u8>, DecodeError>(channels),
{
    lemma_hex_round_trip(channels);
}

fn hex_digit_exec(n: u8) -> (r: u8)
    requires
        n < 16,
    ensures
        r == hex_digit(n),
{
    if n < 10 { 48 + n } else { 55 + n }
}

fn hex_value_exec(c: u8) -> (r: Option<u8>)
    ensures
        match r {
            Some(v) => is_hex_byte(c) && v == hex_value(c) && v < 16,
            None => !is_hex_byte(c),
        },
{
    if 48 <= c && c <= 57 {
        Some(c - 48)
    } else if 65 <= c && c <= 70 {
        Some(c - 55)
    } else if 97 <= c && c <= 102 {
        Some(c - 87)
    } else {
        None
    }
}

/// Spells each byte as two uppercase hex characters.
pub fn encode_hex(data: &[u8]) -> (r: Vec<u8>)
    requires
        data@.len() <= usize::MAX / 2,
    ensures
        r@ == hex_encode(data@),
{
    let mut out: Vec<u8> = Vec::new();
    let mut i: usize = 0;
    while i < data.len()
        invariant
            i <= data@.len() <= usize::MAX / 2,
            out@ =~= hex_encode(data@.subrange(0, i as int)),
        decreases data@.len() - i,
    {
        let b = data[i];
        let hi = hex_digit_exec(b / 16);
        let lo = hex_digit_exec(b % 16);
        out.push(hi);
        out.push(lo);
        proof {
            let s = data@.subrange(0, i as int + 1);
            let old_s = data@.subrange(0, i as int);
            assert forall|k: int| 0 <= k < 2 * s.len() implies #[trigger] out@[k] == hex_encode(s)[k] by {
                if k < 2 * i {
                    assert(s[k / 2] == old_s[k / 2]);
                } else {
                    assert(k / 2 == i as int);
                }
            }
        }
        i = i + 1;
    }
    assert(data@.subrange(0, i as int) =~= data@);
    out
}

/// Reads pairs of hex digits, in either case; `None` if any byte is not a
/// hex digit or the length is odd.
pub fn decode_hex(text: &[u8]) -> (r: Option<Vec<u8>>)
    ensures
        match r {
            Some(v) => is_hex_text(text@) && v@ == hex_decode(text@),
            None => !is_hex_text(text@),
        },
{
    if text.len() % 2 != 0 {
        return None;
    }
    let mut out: Vec<u8> = Vec::new();
    let mut i: usize = 0;
    let len = text.len();
    let n = len / 2;
    while i < n
        invariant
            len == text@.len(),
            n == len / 2,
            text@.len() % 2 == 0,
            i <= n,
            out@.len() == i,
            forall|k: int| 0 <= k < 2 * i ==> is_hex_byte(#[trigger] text@[k]),
            forall|k: int| 0 <= k < i ==> #[trigger] out@[k] == hex_decode(text@)[k],
        decreases n - i,
    {
        let a = hex_value_exec(text[2 * i]);
        let b = hex_value_exec(text[2 * i + 1]);
        match (a, b) {
            (Some(x), Some(y)) => {
                out.push(x * 16 + y);
            },
            _ => {
                assert(!is_hex_text(text@)) by {
                    if a is None {
                        assert(!is_hex_byte(text@[2 * i as int]));
                    } else {
                        assert(!is_hex_byte(text@[2 * i as int + 1]));
                    }
                }
                return None;
            },
        }
        i = i + 1;
    }
    assert(out@ =~= hex_decode(text@));
    Some(out)
}

/// The payload that carries `channels` in `encoding`.
pub fn encode_payload(channels: &[u8], encoding: PixelEncoding) -> (r: Vec<u8>)
    requires
        encoding == PixelEncoding::Hex ==> channels@.len() <= usize::MAX / 2,
    ensures
        r@ == payload_of(channels@, encoding),
{
    match encoding {
        PixelEncoding::Binary => copy_all(channels),
        PixelEncoding::Hex => encode_hex(channels),
    }
}

/// The `n` channel bytes carried by `payload`, or `CorruptPayload`.
pub fn decode_payload(payload: &[u8], encoding: PixelEncoding, n: usize) -> (r: Result<Vec<u8>, DecodeError>)
    ensures
        match r {
            Ok(v) => channels_of(payload@, encoding, n as nat) == Ok::<Seq<u8>, DecodeError>(v@),
            Err(e) => channels_of(payload@, encoding, n as nat) == Err::<Seq<u8>, DecodeError>(e),
        },
{
    match encoding {
        PixelEncoding::Binary => {
            if payload.len() == n {
                Ok(copy_all(payload))
            } else {
                Err(DecodeError::CorruptPayload)
            }
        },
        PixelEncoding::Hex => {
            let plen = payload.len();
            if n > usize::MAX / 2 || plen != 2 * n {
                return Err(DecodeError::CorruptPayload);
            }
            match decode_hex(payload) {
                Some(v) => Ok(v),
                None => Err(DecodeError::CorruptPayload),
            }
        },
    }
}

} // verus!
