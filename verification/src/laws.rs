//! Laws the library keeps, stated once over the specification functions the
//! public contracts use, and proved for every input they admit.

use vstd::prelude::*;
use crate::session::{Session, WireEncoding, spec_encode_le, spec_encode_be, spec_decode_value,
    spec_parse_device, spec_frame_bytes, spec_frame_head, spec_routing_bytes, spec_word_size};
use crate::text::{spec_dec_digits, is_digit_char, lemma_dec_digits_all_digits,
    lemma_dec_val_of_digits};
use crate::wire::{le_bytes, u64_of_i64, signed16, lemma_bytes_len, lemma_le_bytes_1};

verus! {

/// Round trip of the value codec on a little-endian binary session: encoding
/// a value and decoding the bytes with the same type and signedness gives the
/// value back truncated to the wire width — eight bits at width 2, sixteen
/// bits at widths 4 and 8 (width 8 encodes thirty-two bits but decoding reads
/// the first sixteen).  Big-endian sessions keep this only at width 2, where
/// byte order plays no part; ASCII-mode decoding expects hexadecimal text and
/// is deliberately not an inverse of the binary encoder.
pub proof fn lemma_codec_round_trip(v: i64, size: int, signed: bool)
    requires
        size == 2 || size == 4 || size == 8,
    ensures
        spec_decode_value(
            true,
            WireEncoding::Binary,
            size,
            signed,
            spec_encode_le(size, u64_of_i64(v)),
        ) == Ok::<int, crate::err::MelsecError>(
            if size == 2 {
                (u64_of_i64(v) % 256) as int
            } else if signed {
                signed16((u64_of_i64(v) % 0x10000) as int)
            } else {
                (u64_of_i64(v) % 0x10000) as int
            },
        ),
        size == 2 ==> spec_decode_value(
            false,
            WireEncoding::Binary,
            2,
            signed,
            spec_encode_be(2, u64_of_i64(v)),
        ) == Ok::<int, crate::err::MelsecError>((u64_of_i64(v) % 256) as int),
{
    let u = u64_of_i64(v);
    if size == 2 {
        lemma_le_bytes_1(u);
        let b = spec_encode_le(2, u);
        assert(b.len() == 1 && b[0] == (u % 256) as u8);
        assert(spec_encode_be(2, u) == b);
    } else {
        let n: nat = if size == 4 {
            2
        } else {
            4
        };
        let b = le_bytes(u, n);
        lemma_bytes_len(u, n);
        lemma_bytes_len(u / 256, (n - 1) as nat);
        assert(b[0] == (u % 256) as u8);
        assert(b[1] == ((u / 256) % 256) as u8) by {
            assert(b == seq![(u % 256) as u8] + le_bytes(u / 256, (n - 1) as nat));
            assert(le_bytes(u / 256, (n - 1) as nat)[0] == ((u / 256) % 256) as u8);
        }
        vstd::arithmetic::div_mod::lemma_mod_breakdown(u as int, 256, 256);
        assert(b[0] + 256 * b[1] == u % 0x10000);
    }
}

/// A device class followed by a rendered index parses back to exactly that
/// class and index: formatting and parsing of device tokens are inverse.
pub proof fn lemma_parse_of_composed_token(c: Seq<char>, n: int)
    requires
        c.len() > 0,
        forall|i: int| 0 <= i < c.len() ==> !is_digit_char(#[trigger] c[i]),
        0 <= n <= 0x7fffffff,
    ensures
        spec_parse_device(c + spec_dec_digits(n as nat)) == Some((c, n)),
{
    let digits = spec_dec_digits(n as nat);
    let s = c + digits;
    lemma_dec_digits_all_digits(n as nat);
    assert(digits.len() >= 1);
    assert forall|m: int| 0 <= m < c.len() implies !is_digit_char(#[trigger] s[m]) by {
        assert(s[m] == c[m]);
    }
    assert(is_digit_char(s[c.len() as int])) by {
        assert(s[c.len() as int] == digits[0]);
    }
    crate::session::lemma_class_len_is(s, c.len() as int);
    assert(s.skip(c.len() as int) =~= digits);
    assert(s.take(c.len() as int) =~= c);
    lemma_dec_val_of_digits(n as nat);
}

/// A multi-word element expands into exactly one device entry per word, and
/// the tokens those entries are built from carry strictly increasing indices:
/// entry `m` names the element's own class at its index plus `m`.  A type of
/// width 8 therefore expands into exactly 4 entries at indices `idx` to
/// `idx + 3`.
pub proof fn lemma_expansion_indices(c: Seq<char>, idx: int, k: int)
    requires
        c.len() > 0,
        forall|i: int| 0 <= i < c.len() ==> !is_digit_char(#[trigger] c[i]),
        0 <= idx,
        0 <= k,
        idx + k <= 0x7fffffff,
    ensures
        forall|m: int|
            0 <= m < k ==> spec_parse_device(
                c + #[trigger] spec_dec_digits((idx + m) as nat),
            ) == Some((c, idx + m)),
    decreases k,
{
    assert forall|m: int| 0 <= m < k implies spec_parse_device(
        c + #[trigger] spec_dec_digits((idx + m) as nat),
    ) == Some((c, idx + m)) by {
        lemma_parse_of_composed_token(c, idx + m);
    }
}

/// The body-length field of every frame equals the word size plus the payload
/// length, reduced to its one encoded byte, and sits directly before the
/// timer and the payload: a frame is the transport header, six routing bytes
/// of which the length field is the fifth, then the payload.
pub proof fn lemma_frame_length_field(s: Session, payload: Seq<u8>)
    ensures
        spec_frame_bytes(s, payload).len() == spec_frame_head(s).len() + 6 + payload.len(),
        spec_frame_bytes(s, payload)[spec_frame_head(s).len() as int + 4] == ((
        spec_word_size(s.comm_type) + payload.len()) % 256) as u8,
        forall|i: int|
            0 <= i < payload.len() ==> spec_frame_bytes(s, payload)[spec_frame_head(s).len() as int + 6
                + i] == payload[i],
{
    let head = spec_frame_head(s);
    let routing = spec_routing_bytes(s, payload.len() as int);
    assert(routing.len() == 6);
    assert(spec_frame_bytes(s, payload) == head + routing + payload);
    assert((head + routing + payload)[head.len() as int + 4] == routing[4]);
}

} // verus!
