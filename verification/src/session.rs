//! Session state and the protocol engine: the value codec, device-address
//! encoding, frame assembly, response parsing, and the batch and random
//! access request builders and response decoders.
//!
//! A session holds no socket.  Request builders return the bytes to send;
//! response decoders take the bytes received.  The caller owns the exchange.

use vstd::prelude::*;
use vstd::slice::{slice_subrange, slice_to_vec};
use crate::err::{MCError, MelsecError, spec_status_code_string};
use crate::db::DataType;
use crate::frame::FrameVariant;
use crate::wire::{le_bytes, be_bytes, u64_of_i64, u64_rep, le_bytes_vec, be_bytes_vec, signed16,
    signed16_of, u64_ne_bytes_vec, u16_from_ne};
use crate::text::{str_eq, is_digit_char, all_digits, dec_val, digit_val, char_of_digit, spec_dec_digits, pow10, pow16, spec_hex_pad_bytes, hex_pad_bytes};

verus! {

/// How values travel on the wire: raw bytes, or hexadecimal text where one
/// payload word takes four characters instead of two bytes.
#[derive(Debug, Clone, Copy, PartialEq, Eq, Structural)]
pub enum WireEncoding {
    Binary,
    Ascii,
}

/// Byte order for every multi-byte field, chosen once per session.
#[derive(Debug, Clone, Copy, PartialEq, Eq, Structural)]
pub enum Endianness {
    Little,
    Big,
    Native,
}

/// The PLC series a session speaks to.
#[derive(Debug, Clone, Copy, PartialEq, Eq, Structural)]
pub enum PlcSeries {
    Q,
    L,
    QnA,
    IqL,
    IqR,
}

impl PlcSeries {
    /// The series name as written by callers.
    pub open spec fn spec_str(&self) -> Seq<char> {
        match self {
            PlcSeries::Q => "Q"@,
            PlcSeries::L => "L"@,
            PlcSeries::QnA => "QnA"@,
            PlcSeries::IqL => "iQ-L"@,
            PlcSeries::IqR => "iQ-R"@,
        }
    }

    /// The series name as written by callers.
    pub fn as_str(&self) -> (r: &'static str)
        ensures
            r@ == self.spec_str(),
    {
        match self {
            PlcSeries::Q => "Q",
            PlcSeries::L => "L",
            PlcSeries::QnA => "QnA",
            PlcSeries::IqL => "iQ-L",
            PlcSeries::IqR => "iQ-R",
        }
    }

    /// The series a name denotes.
    pub open spec fn spec_from_str(s: Seq<char>) -> Option<PlcSeries> {
        if s == "Q"@ {
            Some(PlcSeries::Q)
        } else if s == "L"@ {
            Some(PlcSeries::L)
        } else if s == "QnA"@ {
            Some(PlcSeries::QnA)
        } else if s == "iQ-L"@ {
            Some(PlcSeries::IqL)
        } else if s == "iQ-R"@ {
            Some(PlcSeries::IqR)
        } else {
            None
        }
    }

    /// Parse a series name.
    pub fn from_str(s: &str) -> (r: Option<PlcSeries>)
        ensures
            r == PlcSeries::spec_from_str(s@),
    {
        if str_eq(s, "Q") {
            Some(PlcSeries::Q)
        } else if str_eq(s, "L") {
            Some(PlcSeries::L)
        } else if str_eq(s, "QnA") {
            Some(PlcSeries::QnA)
        } else if str_eq(s, "iQ-L") {
            Some(PlcSeries::IqL)
        } else if str_eq(s, "iQ-R") {
            Some(PlcSeries::IqR)
        } else {
            None
        }
    }
}

/// A hexadecimal digit as an ASCII byte.
pub open spec fn is_hex_digit_byte(b: u8) -> bool {
    (48 <= b <= 57) || (65 <= b <= 70) || (97 <= b <= 102)
}

/// Value of a hexadecimal digit byte.
pub open spec fn hex_digit_byte_val(b: u8) -> int {
    if 48 <= b <= 57 {
        b - 48
    } else if 65 <= b <= 70 {
        b - 55
    } else {
        b - 87
    }
}

/// Hexadecimal text decodes exactly when it has even length and only digit
/// characters.
pub open spec fn spec_hex_decode_ok(s: Seq<u8>) -> bool {
    s.len() % 2 == 0 && forall|i: int| 0 <= i < s.len() ==> is_hex_digit_byte(#[trigger] s[i])
}

/// The bytes denoted by hexadecimal text, two digits each.
pub open spec fn spec_hex_decoded(s: Seq<u8>) -> Seq<u8> {
    Seq::new(
        s.len() / 2,
        |i: int| (hex_digit_byte_val(s[2 * i]) * 16 + hex_digit_byte_val(s[2 * i + 1])) as u8,
    )
}

#[verifier::external_type_specification]
#[verifier::external_body]
pub struct ExFromHexError(hex::FromHexError);

/// Relies on `hex::decode`: it succeeds exactly on even-length hexadecimal
/// text and returns the bytes the digit pairs denote.
#[verifier::external_body]
fn hex_decode(data: &[u8]) -> (r: Result<Vec<u8>, hex::FromHexError>)
    ensures
        r is Ok <==> spec_hex_decode_ok(data@),
        r matches Ok(v) ==> v@ == spec_hex_decoded(data@),
{
    hex::decode(data)
}

/// The bytes a value field holds once the wire encoding is undone: the raw
/// bytes in binary mode, the hex-decoded bytes in ASCII mode (or nothing, on
/// malformed hex).
pub open spec fn spec_wire_bytes(comm: WireEncoding, data: Seq<u8>) -> Option<Seq<u8>> {
    match comm {
        WireEncoding::Binary => Some(data),
        WireEncoding::Ascii => if spec_hex_decode_ok(data) {
            Some(spec_hex_decoded(data))
        } else {
            None
        },
    }
}

/// Fixed-width encoding of a value: width 2 emits the low byte alone; width 4
/// a 16-bit little-endian integer; width 8 a 32-bit little-endian integer.
pub open spec fn spec_encode_le(size: int, u: nat) -> Seq<u8> {
    if size == 2 {
        le_bytes(u, 1)
    } else if size == 4 {
        le_bytes(u, 2)
    } else {
        le_bytes(u, 4)
    }
}

/// Big-endian encoding: width 2 emits the low byte alone; widths 4 and 8 both
/// emit a 32-bit big-endian integer.
pub open spec fn spec_encode_be(size: int, u: nat) -> Seq<u8> {
    if size == 2 {
        le_bytes(u, 1)
    } else {
        be_bytes(u, 4)
    }
}

/// Fixed-width decoding from unwrapped wire bytes: width 2 reads one unsigned
/// byte; widths 4 and 8 both read a 16-bit integer, signed or unsigned.
/// `None` on a truncated buffer.
pub open spec fn spec_decode_num(little: bool, size: int, signed: bool, b: Seq<u8>) -> Option<
    int,
> {
    if size == 2 {
        if b.len() >= 1 {
            Some(b[0] as int)
        } else {
            None
        }
    } else {
        if b.len() >= 2 {
            let u: int = if little {
                b[0] + 256 * b[1]
            } else {
                b[1] + 256 * b[0]
            };
            Some(if signed { signed16(u) } else { u })
        } else {
            None
        }
    }
}

/// Decoding through the wire encoding: undo hex text in ASCII mode, then read
/// the fixed-width integer.
pub open spec fn spec_decode_value(
    little: bool,
    comm: WireEncoding,
    size: int,
    signed: bool,
    data: Seq<u8>,
) -> Result<int, MelsecError> {
    match spec_wire_bytes(comm, data) {
        None => Err(MelsecError::DecodeError),
        Some(b) => match spec_decode_num(little, size, signed, b) {
            None => Err(MelsecError::DecodeError),
            Some(v) => Ok(v),
        },
    }
}

/// One session's protocol state: series, wire encoding, endianness, frame
/// variant (owning the 4E serial), and the routing fields.
#[derive(Debug, Clone)]
pub struct Session {
    pub plc_type: PlcSeries,
    pub comm_type: WireEncoding,
    pub endian: Endianness,
    pub frame: FrameVariant,
    pub network: u8,
    pub pc: u8,
    pub dest_moduleio: u16,
    pub dest_modulesta: u8,
    pub timer: u8,
}

/// Bytes of one payload word: two in binary mode, four in ASCII mode.
pub open spec fn spec_word_size(comm: WireEncoding) -> int {
    match comm {
        WireEncoding::Binary => 2,
        WireEncoding::Ascii => 4,
    }
}

impl Session {
    /// A fresh session for the named series, binary encoding, little endian,
    /// default routing, and a 3E or 4E frame as chosen.  Rejects a series
    /// name outside Q, L, QnA, iQ-L, iQ-R.
    pub fn new(plc_type: &str, use_e4: bool) -> (r: Result<Session, MelsecError>)
        ensures
            r is Ok <==> PlcSeries::spec_from_str(plc_type@) is Some,
            r matches Ok(s) ==> {
                &&& Some(s.plc_type) == PlcSeries::spec_from_str(plc_type@)
                &&& s.comm_type == WireEncoding::Binary
                &&& s.endian == Endianness::Little
                &&& (use_e4 ==> s.frame == (FrameVariant::FourE {
                    subheader: 0x5400u16,
                    serial: 0u16,
                }))
                &&& (!use_e4 ==> s.frame == (FrameVariant::ThreeE { subheader: 0x5000u16 }))
                &&& s.network == 0
                &&& s.pc == 0xFF
                &&& s.dest_moduleio == 0x3FF
                &&& s.dest_modulesta == 0
                &&& s.timer == 4
            },
            r matches Err(e) ==> e is UnsupportedSeries,
    {
        let series = match PlcSeries::from_str(plc_type) {
            Some(s) => s,
            None => {
                return Err(MelsecError::UnsupportedSeries);
            },
        };
        let frame = if use_e4 {
            FrameVariant::four_e()
        } else {
            FrameVariant::three_e()
        };
        Ok(
            Session {
                plc_type: series,
                comm_type: WireEncoding::Binary,
                endian: Endianness::Little,
                frame,
                network: 0,
                pc: 0xFF,
                dest_moduleio: 0x3FF,
                dest_modulesta: 0,
                timer: 4,
            },
        )
    }

    /// Select the wire encoding by name: "binary" or "ascii".
    pub fn set_comm_type(&mut self, comm_type: &str) -> (r: Result<(), MelsecError>)
        ensures
            r is Ok <==> (comm_type@ == "binary"@ || comm_type@ == "ascii"@),
            comm_type@ == "binary"@ ==> final(self).comm_type == WireEncoding::Binary,
            comm_type@ == "ascii"@ ==> final(self).comm_type == WireEncoding::Ascii,
            r is Err ==> final(self).comm_type == old(self).comm_type,
            final(self).plc_type == old(self).plc_type,
            final(self).endian == old(self).endian,
            final(self).frame == old(self).frame,
            final(self).network == old(self).network,
            final(self).pc == old(self).pc,
            final(self).dest_moduleio == old(self).dest_moduleio,
            final(self).dest_modulesta == old(self).dest_modulesta,
            final(self).timer == old(self).timer,
    {
        proof {
            assert("binary"@ != "ascii"@) by {
                reveal_strlit("binary");
                reveal_strlit("ascii");
                assert("binary"@.len() == 6);
                assert("ascii"@.len() == 5);
            }
        }
        if str_eq(comm_type, "binary") {
            self.comm_type = WireEncoding::Binary;
            Ok(())
        } else if str_eq(comm_type, "ascii") {
            self.comm_type = WireEncoding::Ascii;
            Ok(())
        } else {
            Err(MelsecError::DecodeError)
        }
    }

    /// Set the serial number carried by a 4E frame; a no-op on a 3E frame.
    pub fn set_subheader_serial(&mut self, subheader_serial: u16) -> (r: Result<(), MelsecError>)
        ensures
            r is Ok,
            old(self).frame is FourE ==> *final(self) == (Session {
                frame: FrameVariant::FourE {
                    subheader: old(self).frame.spec_subheader(),
                    serial: subheader_serial,
                },
                ..*old(self)
            }),
            old(self).frame is ThreeE ==> *final(self) == *old(self),
    {
        self.frame.set_subheader_serial(subheader_serial)
    }

    /// Bytes of one payload word under this session's wire encoding.
    pub fn word_size(&self) -> (r: usize)
        ensures
            r as int == spec_word_size(self.comm_type),
    {
        match self.comm_type {
            WireEncoding::Binary => 2,
            WireEncoding::Ascii => 4,
        }
    }

    /// Encode a value at the width of `mode`: the low byte alone at width 2, a
    /// 16-bit integer at width 4, a 32-bit integer at width 8, in the
    /// session's byte order.  The bytes of the two's-complement pattern do
    /// not depend on `is_signal`.
    pub fn encode_value(&self, value: i64, mode: DataType, is_signal: bool) -> (r: Result<
        Vec<u8>,
        MelsecError,
    >)
        ensures
            r is Ok,
            self.endian == Endianness::Little ==> (r matches Ok(b) && b@ == spec_encode_le(
                mode.spec_size(),
                u64_of_i64(value),
            )),
            self.endian == Endianness::Big ==> (r matches Ok(b) && b@ == spec_encode_be(
                mode.spec_size(),
                u64_of_i64(value),
            )),
            self.endian == Endianness::Native && mode.spec_size() == 2 ==> (r matches Ok(b) && b@
                == le_bytes(u64_of_i64(value), 1)),
            self.endian == Endianness::Native && mode.spec_size() != 2 ==> (r matches Ok(b) && (b@
                == le_bytes(u64_of_i64(value), 8) || b@ == be_bytes(u64_of_i64(value), 8))),
    {
        let u = u64_rep(value);
        let size = mode.size();
        match self.endian {
            Endianness::Little => {
                if size == 2 {
                    Ok(le_bytes_vec(u, 1))
                } else if size == 4 {
                    Ok(le_bytes_vec(u, 2))
                } else {
                    Ok(le_bytes_vec(u, 4))
                }
            },
            Endianness::Big => {
                if size == 2 {
                    Ok(le_bytes_vec(u, 1))
                } else {
                    Ok(be_bytes_vec(u, 4))
                }
            },
            Endianness::Native => {
                if size == 2 {
                    Ok(le_bytes_vec(u, 1))
                } else {
                    Ok(u64_ne_bytes_vec(u))
                }
            },
        }
    }

    /// Decode a value field: undo hexadecimal text in ASCII mode, then read
    /// one unsigned byte at width 2 or a 16-bit integer at widths 4 and 8, in
    /// the session's byte order.  Fails with `DecodeError` on malformed hex
    /// or a truncated buffer.
    pub fn decode_value(&self, data: &[u8], mode: &DataType, is_signed: bool) -> (r: Result<
        i64,
        MelsecError,
    >)
        ensures
            self.endian == Endianness::Little ==> r_matches_spec(
                r,
                spec_decode_value(true, self.comm_type, mode.spec_size(), is_signed, data@),
            ),
            self.endian == Endianness::Big ==> r_matches_spec(
                r,
                spec_decode_value(false, self.comm_type, mode.spec_size(), is_signed, data@),
            ),
            self.endian == Endianness::Native ==> {
                &&& (r is Ok <==> spec_decode_value(
                    true,
                    self.comm_type,
                    mode.spec_size(),
                    is_signed,
                    data@,
                ) is Ok)
                &&& (r matches Ok(v) ==> spec_decode_value(
                    true,
                    self.comm_type,
                    mode.spec_size(),
                    is_signed,
                    data@,
                ) == Ok::<int, MelsecError>(v as int) || spec_decode_value(
                    false,
                    self.comm_type,
                    mode.spec_size(),
                    is_signed,
                    data@,
                ) == Ok::<int, MelsecError>(v as int))
            },
            r matches Err(e) ==> e is DecodeError,
    {
        let bytes: Vec<u8> = match self.comm_type {
            WireEncoding::Binary => slice_to_vec(data),
            WireEncoding::Ascii => match hex_decode(data) {
                Ok(b) => b,
                Err(_) => {
                    return Err(MelsecError::DecodeError);
                },
            },
        };
        let size = mode.size();
        if size == 2 {
            if bytes.len() < 1 {
                Err(MelsecError::DecodeError)
            } else {
                Ok(bytes[0] as i64)
            }
        } else {
            if bytes.len() < 2 {
                Err(MelsecError::DecodeError)
            } else {
                let u: u16 = match self.endian {
                    Endianness::Little => bytes[0] as u16 + 256 * (bytes[1] as u16),
                    Endianness::Big => bytes[1] as u16 + 256 * (bytes[0] as u16),
                    Endianness::Native => u16_from_ne(bytes[0], bytes[1]),
                };
                if is_signed {
                    Ok(signed16_of(u))
                } else {
                    Ok(u as i64)
                }
            }
        }
    }
}

/// Length of the leading run of non-digit characters: the device class.
pub open spec fn spec_class_len(s: Seq<char>) -> nat
    decreases s.len(),
{
    if s.len() == 0 || is_digit_char(s[0]) {
        0
    } else {
        1 + spec_class_len(s.drop_first())
    }
}

/// A run of non-digits ended by a digit or the end of the token is exactly
/// the class prefix.
pub proof fn lemma_class_len_is(s: Seq<char>, k: int)
    requires
        0 <= k <= s.len(),
        forall|m: int| 0 <= m < k ==> !is_digit_char(#[trigger] s[m]),
        k == s.len() || is_digit_char(s[k]),
    ensures
        spec_class_len(s) == k,
    decreases k,
{
    if k == 0 {
    } else {
        assert(!is_digit_char(s[0]));
        lemma_class_len_is(s.drop_first(), k - 1);
    }
}

/// Parse a device token: the class is the maximal leading non-digit run, the
/// index the remaining digits read in base 10.  Nothing if either part is
/// empty, a non-digit follows the digits, or the index overflows an `i32`.
pub open spec fn spec_parse_device(s: Seq<char>) -> Option<(Seq<char>, int)> {
    let k = spec_class_len(s) as int;
    let rest = s.skip(k);
    if k == 0 || k >= s.len() || !all_digits(rest) {
        None
    } else {
        let v = dec_val(rest);
        if v <= 0x7fffffff {
            Some((s.take(k), v))
        } else {
            None
        }
    }
}

fn class_end(s: &str, from: usize) -> (r: usize)
    requires
        from <= s@.len(),
        forall|m: int| 0 <= m < from ==> !is_digit_char(#[trigger] s@[m]),
    ensures
        from <= r <= s@.len(),
        forall|m: int| 0 <= m < r ==> !is_digit_char(#[trigger] s@[m]),
        r == s@.len() || is_digit_char(s@[r as int]),
    decreases s@.len() - from,
{
    if from == s.unicode_len() {
        from
    } else {
        let c = s.get_char(from);
        let u = c as u32;
        if 48 <= u && u <= 57 {
            from
        } else {
            class_end(s, from + 1)
        }
    }
}

/// Split a device token into its class prefix and numeric index.
pub fn parse_device(device: &str) -> (r: Result<(String, i32), MelsecError>)
    ensures
        r matches Ok((c, idx)) ==> spec_parse_device(device@) == Some((c@, idx as int)) && idx
            >= 0,
        r matches Err(e) ==> spec_parse_device(device@) is None && e is InvalidDeviceToken,
{
    let len = device.unicode_len();
    let k = class_end(device, 0);
    proof {
        lemma_class_len_is(device@, k as int);
    }
    if k == 0 || k == len {
        return Err(MelsecError::InvalidDeviceToken);
    }
    let ghost rest = device@.skip(k as int);
    let mut acc: u64 = 0;
    let mut i: usize = k;
    while i < len
        invariant
            k <= i <= len,
            len == device@.len(),
            rest == device@.skip(k as int),
            k < len,
            spec_class_len(device@) == k,
            forall|j: int| k <= j < i ==> is_digit_char(#[trigger] device@[j]),
            acc == dec_val(rest.take(i - k)),
            acc <= 0x7fffffff,
        decreases len - i,
    {
        let c = device.get_char(i);
        let u = c as u32;
        if !(48 <= u && u <= 57) {
            proof {
                assert(rest[i - k] == device@[i as int]);
                assert(!is_digit_char(rest[i - k]));
                assert(!all_digits(rest));
            }
            return Err(MelsecError::InvalidDeviceToken);
        }
        let d = (u - 48) as u64;
        proof {
            assert(rest.take(i + 1 - k).drop_last() =~= rest.take(i - k));
            assert(rest.take(i + 1 - k).last() == device@[i as int]);
            assert(digit_val(device@[i as int]) == d);
        }
        acc = acc * 10 + d;
        i = i + 1;
        if acc > 0x7fffffff {
            proof {
                if all_digits(rest) {
                    crate::text::lemma_dec_val_prefix(rest, i - k);
                    assert(dec_val(rest) >= acc as int);
                }
            }
            return Err(MelsecError::InvalidDeviceToken);
        }
    }
    proof {
        assert(rest.take(len - k) =~= rest);
        assert(all_digits(rest));
        assert(dec_val(rest) == acc as int);
    }
    let class = device.substring_char(0, k).to_owned();
    proof {
        assert(class@ =~= device@.take(k as int));
    }
    Ok((class, acc as i32))
}

/// The class prefix of a device token.
pub fn get_device_type(device: &str) -> (r: Result<String, MelsecError>)
    ensures
        r matches Ok(c) ==> spec_class_len(device@) > 0 && c@ == device@.take(
            spec_class_len(device@) as int,
        ),
        r is Err <==> spec_class_len(device@) == 0,
        r matches Err(e) ==> e is InvalidDeviceToken,
{
    let k = class_end(device, 0);
    proof {
        lemma_class_len_is(device@, k as int);
    }
    if k == 0 {
        Err(MelsecError::InvalidDeviceToken)
    } else {
        let class = device.substring_char(0, k).to_owned();
        proof {
            assert(class@ =~= device@.take(k as int));
        }
        Ok(class)
    }
}

/// The numeric index of a device token.
pub fn get_device_index(device: &str) -> (r: Result<i32, MelsecError>)
    ensures
        r matches Ok(idx) ==> spec_parse_device(device@) matches Some(p) && p.1 == idx as int
            && idx >= 0,
        r matches Err(e) ==> spec_parse_device(device@) is None && e is InvalidDeviceToken,
{
    match parse_device(device) {
        Ok((_, idx)) => Ok(idx),
        Err(e) => Err(e),
    }
}

/// Digits read in base 16.
pub open spec fn hex16_val(s: Seq<char>) -> int
    decreases s.len(),
{
    if s.len() == 0 {
        0
    } else {
        hex16_val(s.drop_last()) * 16 + digit_val(s.last())
    }
}

proof fn lemma_pow16_pos(k: nat)
    ensures
        pow16(k) >= 1,
    decreases k,
{
    if k > 0 {
        lemma_pow16_pos((k - 1) as nat);
    }
}

proof fn lemma_pow16_mono(a: nat, b: nat)
    requires
        a <= b,
    ensures
        pow16(a) <= pow16(b),
    decreases b,
{
    if a < b {
        lemma_pow16_mono(a, (b - 1) as nat);
        lemma_pow16_pos((b - 1) as nat);
    }
}

proof fn lemma_hex16_val_bound(s: Seq<char>)
    requires
        all_digits(s),
    ensures
        0 <= hex16_val(s) < pow16(s.len()),
    decreases s.len(),
{
    if s.len() > 0 {
        assert(all_digits(s.drop_last()));
        lemma_hex16_val_bound(s.drop_last());
        assert(is_digit_char(s.last()));
        assert(digit_val(s.last()) < 16);
    }
}

fn hex_of_dec(n: u32) -> (r: u64)
    ensures
        r as int == hex16_val(spec_dec_digits(n as nat)),
    decreases n,
{
    if n < 10 {
        proof {
            let s = spec_dec_digits(n as nat);
            assert(s.drop_last() =~= Seq::<char>::empty());
            assert(hex16_val(Seq::<char>::empty()) == 0);
            assert(hex16_val(s) == hex16_val(s.drop_last()) * 16 + digit_val(s.last()));
            assert(digit_val(char_of_digit(n as int)) == n);
        }
        n as u64
    } else {
        let p = hex_of_dec(n / 10);
        proof {
            crate::text::lemma_dec_digits_all_digits((n / 10) as nat);
            lemma_hex16_val_bound(spec_dec_digits((n / 10) as nat));
            reveal_with_fuel(crate::text::pow10, 12);
            assert(pow10(10) == 10000000000);
            crate::text::lemma_dec_digits_len((n / 10) as nat, 10);
            lemma_pow16_mono(spec_dec_digits((n / 10) as nat).len(), 10);
            reveal_with_fuel(crate::text::pow16, 12);
            assert(pow16(10) == 0x10000000000);
            assert(p < 0x10000000000);
            let s = spec_dec_digits(n as nat);
            assert(s.drop_last() =~= spec_dec_digits((n / 10) as nat));
            assert(s.last() == char_of_digit((n % 10) as int));
            assert(hex16_val(s) == hex16_val(s.drop_last()) * 16 + digit_val(s.last()));
            assert(digit_val(char_of_digit((n % 10) as int)) == n % 10);
        }
        p * 16 + (n % 10) as u64
    }
}

/// The on-wire device number: the decimal digits of the index, reread in the
/// class's base.  Base 10 gives the index back; base 16 reinterprets the same
/// digit string as hexadecimal, and overflows an `i32` for large indices.
pub open spec fn spec_reinterpret(idx: int, base: int) -> Option<int> {
    if base == 16 {
        let v = hex16_val(spec_dec_digits(idx as nat));
        if v <= 0x7fffffff {
            Some(v)
        } else {
            None
        }
    } else {
        Some(idx)
    }
}

/// Reread the decimal digits of `index` in the given base.
pub fn reinterpret_index(index: i32, base: u32) -> (r: Result<i32, MelsecError>)
    requires
        index >= 0,
    ensures
        r matches Ok(n) ==> spec_reinterpret(index as int, base as int) == Some(n as int) && n
            >= 0,
        r matches Err(e) ==> spec_reinterpret(index as int, base as int) is None && e
            is InvalidDeviceToken,
{
    if base == 16 {
        let v = hex_of_dec(index as u32);
        proof {
            crate::text::lemma_dec_digits_all_digits(index as nat);
            lemma_hex16_val_bound(spec_dec_digits(index as nat));
        }
        if v > 0x7fffffff {
            Err(MelsecError::InvalidDeviceToken)
        } else {
            Ok(v as i32)
        }
    } else {
        Ok(index)
    }
}

/// An executable decode result agrees with its specification.
pub open spec fn r_matches_spec(r: Result<i64, MelsecError>, s: Result<int, MelsecError>) -> bool {
    match r {
        Ok(v) => s == Ok::<int, MelsecError>(v as int),
        Err(e) => s == Err::<int, MelsecError>(e),
    }
}

/// The command field: an encoded command then subcommand, one low byte each.
pub open spec fn spec_command_bytes(command: u16, subcommand: u16) -> Seq<u8> {
    seq![(command % 256) as u8, (subcommand % 256) as u8]
}

/// The subheader bytes: two big-endian bytes in binary mode, four upper-case
/// hexadecimal characters in ASCII mode.
pub open spec fn spec_subheader_bytes(s: Session) -> Seq<u8> {
    match s.comm_type {
        WireEncoding::Binary => seq![
            (s.frame.spec_subheader() / 256) as u8,
            (s.frame.spec_subheader() % 256) as u8,
        ],
        WireEncoding::Ascii => spec_hex_pad_bytes(s.frame.spec_subheader() as nat, 4, true),
    }
}

/// The transport header: the subheader alone for a 3E frame; for a 4E frame
/// the subheader, the serial number and a reserved zero field, each encoded
/// at width 2 (one byte).
pub open spec fn spec_frame_head(s: Session) -> Seq<u8> {
    match s.frame {
        FrameVariant::ThreeE { .. } => spec_subheader_bytes(s),
        FrameVariant::FourE { .. } => spec_subheader_bytes(s) + seq![
            (s.frame.spec_serial() % 256) as u8,
            0u8,
        ],
    }
}

/// The routing fields: network, station, destination module I/O and status,
/// the body length (word size plus payload length, low byte), and the timer.
pub open spec fn spec_routing_bytes(s: Session, payload_len: int) -> Seq<u8> {
    seq![
        s.network,
        s.pc,
        (s.dest_moduleio % 256) as u8,
        s.dest_modulesta,
        (((spec_word_size(s.comm_type) + payload_len) % 256) as u8),
        s.timer,
    ]
}

/// A full request frame: transport header, routing fields, then the payload.
pub open spec fn spec_frame_bytes(s: Session, payload: Seq<u8>) -> Seq<u8> {
    spec_frame_head(s) + spec_routing_bytes(s, payload.len() as int) + payload
}

/// The status of a response buffer: the byte at the status offset, hex-decoded
/// first in ASCII mode.  Nothing on a truncated or malformed buffer.
pub open spec fn spec_response_status(s: Session, recv: Seq<u8>) -> Option<int> {
    let idx = s.frame.spec_status_index(s.comm_type);
    let ws = spec_word_size(s.comm_type);
    if recv.len() < idx + ws {
        None
    } else {
        match spec_wire_bytes(s.comm_type, recv.subrange(idx, idx + ws)) {
            None => None,
            Some(b) => spec_decode_num(true, 2, false, b),
        }
    }
}

impl Session {
    /// One routing or command field: the low byte of the value, whatever the
    /// session's byte order, as width-2 encoding emits a single byte.
    fn encode_byte_field(&self, value: i64) -> (r: Vec<u8>)
        ensures
            r@ == le_bytes(u64_of_i64(value), 1),
    {
        match self.encode_value(value, DataType::BIT, false) {
            Ok(v) => v,
            Err(_) => Vec::new(),
        }
    }

    /// The command field: command then subcommand, one low byte each.
    pub fn build_command_data(&self, command: u16, subcommand: u16) -> (r: Result<
        Vec<u8>,
        MelsecError,
    >)
        ensures
            r matches Ok(b) && b@ == spec_command_bytes(command, subcommand),
    {
        let mut out = self.encode_byte_field(command as i64);
        let mut sub = self.encode_byte_field(subcommand as i64);
        out.append(&mut sub);
        proof {
            crate::wire::lemma_le_bytes_1(command as nat);
            crate::wire::lemma_le_bytes_1(subcommand as nat);
            assert(out@ =~= spec_command_bytes(command, subcommand));
        }
        Ok(out)
    }

    /// Assemble a full request frame around a command payload: transport
    /// header, routing fields, body length, timer, then the payload.
    pub fn build_send_data(&self, request_data: &[u8]) -> (r: Result<Vec<u8>, MelsecError>)
        ensures
            r matches Ok(b) && b@ == spec_frame_bytes(*self, request_data@),
    {
        let mut mc: Vec<u8> = Vec::new();
        let sub = self.frame.subheader();
        match self.comm_type {
            WireEncoding::Binary => {
                mc.push((sub / 256) as u8);
                mc.push((sub % 256) as u8);
            },
            WireEncoding::Ascii => {
                let mut h = hex_pad_bytes(sub as u32, 4, true);
                mc.append(&mut h);
            },
        }
        proof {
            assert(mc@ =~= spec_subheader_bytes(*self));
        }
        let four_e = match &self.frame {
            FrameVariant::ThreeE { .. } => false,
            FrameVariant::FourE { .. } => true,
        };
        if four_e {
            let serial = self.frame.subheader_serial();
            let mut sb = self.encode_byte_field(serial as i64);
            mc.append(&mut sb);
            let mut rb = self.encode_byte_field(0);
            mc.append(&mut rb);
            proof {
                crate::wire::lemma_le_bytes_1(serial as nat);
                crate::wire::lemma_le_bytes_1(0);
            }
        }
        proof {
            assert(mc@ =~= spec_frame_head(*self));
        }
        let ghost head = mc@;
        let mut f = self.encode_byte_field(self.network as i64);
        mc.append(&mut f);
        let mut f = self.encode_byte_field(self.pc as i64);
        mc.append(&mut f);
        let mut f = self.encode_byte_field(self.dest_moduleio as i64);
        mc.append(&mut f);
        let mut f = self.encode_byte_field(self.dest_modulesta as i64);
        mc.append(&mut f);
        let body_low: usize = (self.word_size() + request_data.len() % 256) % 256;
        proof {
            vstd::arithmetic::div_mod::lemma_add_mod_noop(
                spec_word_size(self.comm_type),
                request_data@.len() as int,
                256,
            );
        }
        let mut f = self.encode_byte_field(body_low as i64);
        mc.append(&mut f);
        let mut f = self.encode_byte_field(self.timer as i64);
        mc.append(&mut f);
        proof {
            crate::wire::lemma_le_bytes_1(self.network as nat);
            crate::wire::lemma_le_bytes_1(self.pc as nat);
            crate::wire::lemma_le_bytes_1(self.dest_moduleio as nat);
            crate::wire::lemma_le_bytes_1(self.dest_modulesta as nat);
            crate::wire::lemma_le_bytes_1(body_low as nat);
            crate::wire::lemma_le_bytes_1(self.timer as nat);
            assert(mc@ =~= head + spec_routing_bytes(*self, request_data@.len() as int));
        }
        let mut payload = slice_to_vec(request_data);
        mc.append(&mut payload);
        proof {
            assert(mc@ =~= spec_frame_bytes(*self, request_data@));
        }
        Ok(mc)
    }

    /// Locate and decode the status field of a response; zero means success,
    /// any other status surfaces as a protocol error with its diagnostic, and
    /// a truncated or malformed buffer as a decode error.
    pub fn check_command_response(&self, recv_data: &[u8]) -> (r: Result<(), MelsecError>)
        ensures
            r is Ok <==> spec_response_status(*self, recv_data@) == Some(0int),
            spec_response_status(*self, recv_data@) is None ==> (r matches Err(e) && e
                is DecodeError),
            match r {
                Err(MelsecError::Protocol(mc)) => spec_response_status(*self, recv_data@)
                    matches Some(st) && st != 0 && mc.code_view() == spec_status_code_string(st),
                _ => true,
            },
            r matches Err(e) ==> (e is Protocol || e is DecodeError),
    {
        let idx = self.frame.get_response_status_index(self.comm_type);
        let ws = self.word_size();
        if recv_data.len() < idx + ws {
            return Err(MelsecError::DecodeError);
        }
        let field = slice_subrange(recv_data, idx, idx + ws);
        let v = match self.decode_value(field, &DataType::SWORD, false) {
            Ok(v) => v,
            Err(_) => {
                return Err(MelsecError::DecodeError);
            },
        };
        proof {
            assert(spec_decode_value(true, self.comm_type, 2, false, field@) == spec_decode_value(
                false,
                self.comm_type,
                2,
                false,
                field@,
            ));
        }
        let status = v as u16;
        match MCError::from_status(status) {
            Ok(()) => Ok(()),
            Err(e) => Err(MelsecError::Protocol(e)),
        }
    }
}

/// The binary-mode on-wire layout of a resolved device number: iQ-R emits a
/// four-byte number then two zero bytes; other series emit the first three
/// bytes of the four-byte number, then the one-byte device code.  A session
/// not set to little endian lays the number out big-endian.
pub open spec fn spec_binary_device_layout(s: Session, n: nat, code: u8) -> Seq<u8> {
    if s.plc_type == PlcSeries::IqR {
        if s.endian == Endianness::Little {
            le_bytes(n, 4) + seq![0u8, 0u8]
        } else {
            be_bytes(n, 4) + seq![0u8, 0u8]
        }
    } else {
        if s.endian == Endianness::Little {
            le_bytes(n, 3) + seq![code]
        } else {
            be_bytes(n, 4).take(3) + seq![code]
        }
    }
}

/// The on-wire bytes of one device reference: parse the token, resolve its
/// class for the session's series and encoding, reread the index in the
/// class's base, and lay the number out; in ASCII mode, the padded class name
/// followed by six lower-case hexadecimal digits.
pub open spec fn spec_device_data(s: Session, dev: Seq<char>) -> Result<Seq<u8>, MelsecError> {
    match spec_parse_device(dev) {
        None => Err(MelsecError::InvalidDeviceToken),
        Some((class, idx)) => match s.comm_type {
            WireEncoding::Binary => match crate::db::spec_binary_device_code(
                s.plc_type.spec_str(),
                class,
            ) {
                Err(e) => Err(e),
                Ok((code, base)) => match spec_reinterpret(idx, base as int) {
                    None => Err(MelsecError::InvalidDeviceToken),
                    Some(n) => Ok(spec_binary_device_layout(s, n as nat, code)),
                },
            },
            WireEncoding::Ascii => match crate::db::spec_ascii_device_code(
                s.plc_type.spec_str(),
                class,
            ) {
                Err(e) => Err(e),
                Ok((codeseq, base)) => match spec_reinterpret(idx, base as int) {
                    None => Err(MelsecError::InvalidDeviceToken),
                    Some(n) => Ok(
                        crate::text::spec_ascii_bytes(codeseq) + spec_hex_pad_bytes(
                            n as nat,
                            6,
                            false,
                        ),
                    ),
                },
            },
        },
    }
}

impl Session {
    /// Encode one device reference for this session's series, encoding and
    /// byte order.
    pub fn build_device_data(&self, device: &str) -> (r: Result<Vec<u8>, MelsecError>)
        ensures
            r matches Ok(b) ==> spec_device_data(*self, device@) == Ok::<Seq<u8>, MelsecError>(b@),
            r matches Err(e) ==> spec_device_data(*self, device@) == Err::<Seq<u8>, MelsecError>(
                e,
            ),
    {
        let (class, index) = match parse_device(device) {
            Ok(p) => p,
            Err(e) => {
                return Err(e);
            },
        };
        match self.comm_type {
            WireEncoding::Binary => {
                let (code, base) = match crate::db::DeviceConstants::get_binary_device_code(
                    self.plc_type.as_str(),
                    class.as_str(),
                ) {
                    Ok(p) => p,
                    Err(e) => {
                        return Err(e);
                    },
                };
                let n = match reinterpret_index(index, base) {
                    Ok(n) => n,
                    Err(e) => {
                        return Err(e);
                    },
                };
                let u = n as u64;
                let little = match self.endian {
                    Endianness::Little => true,
                    _ => false,
                };
                let iqr = match self.plc_type {
                    PlcSeries::IqR => true,
                    _ => false,
                };
                if iqr {
                    let mut out = if little {
                        le_bytes_vec(u, 4)
                    } else {
                        be_bytes_vec(u, 4)
                    };
                    out.push(0);
                    out.push(0);
                    proof {
                        assert(out@ =~= spec_binary_device_layout(*self, u as nat, code));
                    }
                    Ok(out)
                } else {
                    if little {
                        let mut out = le_bytes_vec(u, 3);
                        out.push(code);
                        proof {
                            assert(out@ =~= spec_binary_device_layout(*self, u as nat, code));
                        }
                        Ok(out)
                    } else {
                        let b4 = be_bytes_vec(u, 4);
                        proof {
                            crate::wire::lemma_bytes_len(u as nat, 4);
                        }
                        let mut out: Vec<u8> = Vec::new();
                        out.push(b4[0]);
                        out.push(b4[1]);
                        out.push(b4[2]);
                        out.push(code);
                        proof {
                            assert(out@ =~= spec_binary_device_layout(*self, u as nat, code));
                        }
                        Ok(out)
                    }
                }
            },
            WireEncoding::Ascii => {
                let (codename, base) = match crate::db::DeviceConstants::get_ascii_device_code(
                    self.plc_type.as_str(),
                    class.as_str(),
                ) {
                    Ok(p) => p,
                    Err(e) => {
                        return Err(e);
                    },
                };
                let n = match reinterpret_index(index, base) {
                    Ok(n) => n,
                    Err(e) => {
                        return Err(e);
                    },
                };
                let mut out = crate::text::ascii_bytes_of(codename.as_str());
                let mut num = hex_pad_bytes(n as u32, 6, false);
                out.append(&mut num);
                Ok(out)
            },
        }
    }
}

/// The subcommand matrix: bit-wise access against word-wise access, crossed
/// with the iQ-R series against the others.
pub open spec fn spec_subcommand(s: Session, is_bit: bool) -> u16 {
    if is_bit {
        if s.plc_type == PlcSeries::IqR {
            0x0003u16
        } else {
            0x0001u16
        }
    } else {
        if s.plc_type == PlcSeries::IqR {
            0x0002u16
        } else {
            0x0000u16
        }
    }
}

/// The payload of a batch read or write header: command, subcommand, device
/// address, then the word count (element count times width, halved), one low
/// byte.
pub open spec fn spec_batch_header(
    s: Session,
    command: u16,
    dev: Seq<char>,
    count: int,
    t: DataType,
) -> Result<Seq<u8>, MelsecError> {
    match spec_device_data(s, dev) {
        Err(e) => Err(e),
        Ok(dd) => Ok(
            spec_command_bytes(command, spec_subcommand(s, t is BIT)) + dd + seq![
                (((count * t.spec_size()) / 2) % 256) as u8,
            ],
        ),
    }
}

/// A full batch-read request frame.
pub open spec fn spec_batch_read_request(
    s: Session,
    dev: Seq<char>,
    read_size: int,
    t: DataType,
) -> Result<Seq<u8>, MelsecError> {
    match spec_batch_header(s, 0x0401u16, dev, read_size, t) {
        Err(e) => Err(e),
        Ok(p) => Ok(spec_frame_bytes(s, p)),
    }
}

impl Session {
    fn subcommand_for(&self, is_bit: bool) -> (r: u16)
        ensures
            r == spec_subcommand(*self, is_bit),
    {
        if is_bit {
            match self.plc_type {
                PlcSeries::IqR => 0x0003,
                _ => 0x0001,
            }
        } else {
            match self.plc_type {
                PlcSeries::IqR => 0x0002,
                _ => 0x0000,
            }
        }
    }

    /// The header shared by batch read and write: command, subcommand, device
    /// address, word count.
    fn batch_header(&self, command: u16, ref_device: &str, count: usize, data_type: &DataType)
        -> (r: Result<Vec<u8>, MelsecError>)
        ensures
            r matches Ok(b) ==> spec_batch_header(
                *self,
                command,
                ref_device@,
                count as int,
                *data_type,
            ) == Ok::<Seq<u8>, MelsecError>(b@),
            r matches Err(e) ==> spec_batch_header(
                *self,
                command,
                ref_device@,
                count as int,
                *data_type,
            ) == Err::<Seq<u8>, MelsecError>(e),
    {
        let is_bit = *data_type == DataType::BIT;
        let subcommand = self.subcommand_for(is_bit);
        let mut request = match self.build_command_data(command, subcommand) {
            Ok(b) => b,
            Err(e) => {
                return Err(e);
            },
        };
        let mut dd = match self.build_device_data(ref_device) {
            Ok(b) => b,
            Err(e) => {
                return Err(e);
            },
        };
        request.append(&mut dd);
        let size = data_type.size();
        let half = (size / 2) as usize;
        proof {
            assert(((count as int) % 256) * (half as int) <= 1020) by (nonlinear_arith)
                requires
                    half as int <= 4,
                    0 <= (count as int) % 256 <= 255,
            ;
        }
        let words_low: usize = ((count % 256) * half) % 256;
        let mut wb = self.encode_byte_field(words_low as i64);
        request.append(&mut wb);
        proof {
            crate::wire::lemma_le_bytes_1(words_low as nat);
            let sz = data_type.spec_size();
            assert((count as int) * sz / 2 == (count as int) * (sz / 2)) by (nonlinear_arith)
                requires
                    sz == 2 || sz == 4 || sz == 8,
            ;
            vstd::arithmetic::div_mod::lemma_mul_mod_noop_left(count as int, sz / 2, 256);
            assert(words_low as int == ((count as int) * sz / 2) % 256);
            assert(request@ =~= spec_batch_header(
                *self,
                command,
                ref_device@,
                count as int,
                *data_type,
            ).unwrap());
        }
        Ok(request)
    }

    /// Build a batch-read request: one contiguous run of `read_size` elements
    /// of `data_type` starting at `ref_device`.
    pub fn batch_read_request(&self, ref_device: &str, read_size: usize, data_type: &DataType)
        -> (r: Result<Vec<u8>, MelsecError>)
        ensures
            r matches Ok(b) ==> spec_batch_read_request(
                *self,
                ref_device@,
                read_size as int,
                *data_type,
            ) == Ok::<Seq<u8>, MelsecError>(b@),
            r matches Err(e) ==> spec_batch_read_request(
                *self,
                ref_device@,
                read_size as int,
                *data_type,
            ) == Err::<Seq<u8>, MelsecError>(e),
    {
        let request = match self.batch_header(crate::db::BATCH_READ, ref_device, read_size,
            data_type) {
            Ok(b) => b,
            Err(e) => {
                return Err(e);
            },
        };
        let send = match self.build_send_data(request.as_slice()) {
            Ok(b) => b,
            Err(_) => {
                return Err(MelsecError::DecodeError);
            },
        };
        Ok(send)
    }
}

/// Bit packing for a binary-mode boolean write: two values per byte, the even
/// element at bit 4, the odd element at bit 0.
pub open spec fn spec_bit_pack(values: Seq<i64>) -> Seq<u8> {
    Seq::new(
        ((values.len() + 1) / 2) as nat,
        |j: int|
            (
            (if values[2 * j] != 0 {
                16int
            } else {
                0int
            }) + (if 2 * j + 1 < values.len() && values[2 * j + 1] != 0 {
                1int
            } else {
                0int
            })) as u8,
    )
}

/// ASCII-mode boolean write data: each value as decimal text, concatenated.
pub open spec fn spec_bit_ascii(values: Seq<i64>) -> Seq<u8>
    decreases values.len(),
{
    if values.len() == 0 {
        Seq::empty()
    } else {
        spec_bit_ascii(values.drop_last()) + crate::text::spec_ascii_bytes(
            crate::text::spec_dec_signed(values.last() as int),
        )
    }
}

/// One value encoded at the width of `t`, in the session's byte order (the
/// big-endian form also stands in for a session set to native order, whose
/// bytes this specification does not pin down).
pub open spec fn spec_encoded_one(s: Session, t: DataType, v: i64) -> Seq<u8> {
    if s.endian == Endianness::Little {
        spec_encode_le(t.spec_size(), u64_of_i64(v))
    } else {
        spec_encode_be(t.spec_size(), u64_of_i64(v))
    }
}

/// Non-boolean write data: each value encoded, concatenated.
pub open spec fn spec_values_encoded(s: Session, t: DataType, values: Seq<i64>) -> Seq<u8>
    decreases values.len(),
{
    if values.len() == 0 {
        Seq::empty()
    } else {
        spec_values_encoded(s, t, values.drop_last()) + spec_encoded_one(s, t, values.last())
    }
}

/// The data section of a batch write.
pub open spec fn spec_batch_write_data(s: Session, t: DataType, values: Seq<i64>) -> Seq<u8> {
    if t is BIT {
        if s.comm_type == WireEncoding::Binary {
            spec_bit_pack(values)
        } else {
            spec_bit_ascii(values)
        }
    } else {
        spec_values_encoded(s, t, values)
    }
}

/// A full batch-write request frame.
pub open spec fn spec_batch_write_request(
    s: Session,
    dev: Seq<char>,
    values: Seq<i64>,
    t: DataType,
) -> Result<Seq<u8>, MelsecError> {
    match spec_batch_header(s, 0x1401u16, dev, values.len() as int, t) {
        Err(e) => Err(e),
        Ok(h) => Ok(spec_frame_bytes(s, h + spec_batch_write_data(s, t, values))),
    }
}

impl Session {
    /// Build a batch-write request: `values`, one per element of `data_type`,
    /// written as a contiguous run starting at `ref_device`.
    pub fn batch_write_request(&self, ref_device: &str, values: &Vec<i64>, data_type: &DataType)
        -> (r: Result<Vec<u8>, MelsecError>)
        ensures
            r is Ok <==> spec_batch_write_request(*self, ref_device@, values@, *data_type) is Ok,
            (self.endian != Endianness::Native || *data_type == DataType::BIT) ==> match r {
                Ok(b) => spec_batch_write_request(*self, ref_device@, values@, *data_type) == Ok::<
                    Seq<u8>,
                    MelsecError,
                >(b@),
                Err(e) => spec_batch_write_request(*self, ref_device@, values@, *data_type)
                    == Err::<Seq<u8>, MelsecError>(e),
            },
            r matches Err(e) ==> spec_batch_write_request(*self, ref_device@, values@, *data_type)
                == Err::<Seq<u8>, MelsecError>(e),
    {
        let mut request = match self.batch_header(crate::db::BATCH_WRITE, ref_device,
            values.len(), data_type) {
            Ok(b) => b,
            Err(e) => {
                return Err(e);
            },
        };
        let is_bit = *data_type == DataType::BIT;
        let binary = match self.comm_type {
            WireEncoding::Binary => true,
            WireEncoding::Ascii => false,
        };
        if is_bit {
            if binary {
                proof {
                    assert(data_type.spec_size() == 2);
                }
                let total = values.len();
                let nbytes = total / 2 + total % 2;
                proof {
                    assert(nbytes == (total + 1) / 2);
                }
                let mut data: Vec<u8> = Vec::new();
                let mut j: usize = 0;
                while j < nbytes
                    invariant
                        nbytes == (total + 1) / 2,
                        total == values@.len(),
                        j <= nbytes,
                        data@.len() == j,
                        forall|m: int| 0 <= m < j ==> data@[m] == spec_bit_pack(values@)[m],
                    decreases nbytes - j,
                {
                    let even: u8 = if values[2 * j] != 0 {
                        16
                    } else {
                        0
                    };
                    let odd: u8 = if 2 * j + 1 < total && values[2 * j + 1] != 0 {
                        1
                    } else {
                        0
                    };
                    data.push(even + odd);
                    j = j + 1;
                }
                proof {
                    assert(data@ =~= spec_bit_pack(values@));
                }
                request.append(&mut data);
            } else {
                let mut data: Vec<u8> = Vec::new();
                let mut i: usize = 0;
                while i < values.len()
                    invariant
                        i <= values@.len(),
                        data@ == spec_bit_ascii(values@.take(i as int)),
                    decreases values@.len() - i,
                {
                    let v = values[i];
                    let text = crate::text::dec_str_i64(v);
                    proof {
                        crate::text::lemma_dec_signed_ascii(v as int);
                    }
                    let mut piece = crate::text::ascii_bytes_of(text.as_str());
                    data.append(&mut piece);
                    i = i + 1;
                    proof {
                        assert(values@.take(i as int).drop_last() =~= values@.take(i - 1));
                        assert(values@.take(i as int).last() == values@[i - 1]);
                    }
                }
                proof {
                    assert(values@.take(values@.len() as int) =~= values@);
                }
                request.append(&mut data);
            }
        } else {
            let mut data: Vec<u8> = Vec::new();
            let mut i: usize = 0;
            while i < values.len()
                invariant
                    i <= values@.len(),
                    data@.len() <= i * 8,
                    self.endian != Endianness::Native ==> data@ == spec_values_encoded(
                        *self,
                        *data_type,
                        values@.take(i as int),
                    ),
                decreases values@.len() - i,
            {
                let v = values[i];
                let mut piece = match self.encode_value(v, data_type.clone(), false) {
                    Ok(b) => b,
                    Err(_) => Vec::new(),
                };
                proof {
                    if self.endian == Endianness::Little {
                        crate::wire::lemma_bytes_len(u64_of_i64(v), 4);
                        crate::wire::lemma_bytes_len(u64_of_i64(v), 2);
                        crate::wire::lemma_bytes_len(u64_of_i64(v), 1);
                    }
                    if self.endian == Endianness::Big {
                        crate::wire::lemma_bytes_len(u64_of_i64(v), 4);
                        crate::wire::lemma_bytes_len(u64_of_i64(v), 1);
                    }
                    if self.endian == Endianness::Native {
                        crate::wire::lemma_bytes_len(u64_of_i64(v), 8);
                        crate::wire::lemma_bytes_len(u64_of_i64(v), 1);
                    }
                }
                data.append(&mut piece);
                i = i + 1;
                proof {
                    if self.endian != Endianness::Native {
                        assert(values@.take(i as int).drop_last() =~= values@.take(i - 1));
                        assert(values@.take(i as int).last() == values@[i - 1]);
                    }
                }
            }
            proof {
                assert(values@.take(values@.len() as int) =~= values@);
            }
            request.append(&mut data);
        }
        let send = match self.build_send_data(request.as_slice()) {
            Ok(b) => b,
            Err(_) => {
                return Err(MelsecError::DecodeError);
            },
        };
        Ok(send)
    }
}

/// The text value of element `i` of a batch-read response, or nothing if the
/// buffer is too short or the element does not decode.  Boolean elements in
/// binary mode share a byte per pair: the even element reads bit 4, the odd
/// element bit 0, and without decoding the whole byte is reported.  Boolean
/// elements in ASCII mode each take one byte, reported as its number whether
/// or not decoding was asked (the decode flag has no effect there).  Other
/// types take their full width: decoded as an unsigned number, or returned as
/// the literal UTF-8 text found in the buffer.
pub open spec fn spec_batch_element_value(
    e: Endianness,
    s: Session,
    t: DataType,
    decode: bool,
    recv: Seq<u8>,
    i: int,
) -> Option<Seq<char>> {
    let off = s.frame.spec_data_index(s.comm_type);
    if t is BIT {
        if s.comm_type == WireEncoding::Binary {
            if off + i / 2 < recv.len() {
                let byte = recv[off + i / 2];
                let v: int = if decode {
                    if i % 2 == 0 {
                        if byte & 16 != 0 {
                            1
                        } else {
                            0
                        }
                    } else {
                        if byte & 1 != 0 {
                            1
                        } else {
                            0
                        }
                    }
                } else {
                    byte as int
                };
                Some(spec_dec_digits(v as nat))
            } else {
                None
            }
        } else {
            if off + i < recv.len() {
                Some(spec_dec_digits(recv[off + i] as nat))
            } else {
                None
            }
        }
    } else {
        let sz = t.spec_size();
        if off + (i + 1) * sz <= recv.len() {
            let chunk = recv.subrange(off + i * sz, off + (i + 1) * sz);
            if decode {
                match spec_decode_value(e == Endianness::Little, s.comm_type, sz, false, chunk) {
                    Ok(v) => Some(spec_dec_digits(v as nat)),
                    Err(_) => None,
                }
            } else {
                if vstd::utf8::valid_utf8(chunk) {
                    Some(vstd::utf8::decode_utf8(chunk))
                } else {
                    None
                }
            }
        } else {
            None
        }
    }
}

/// The fields of one decoded tag: the device name is the class followed by
/// the element's index, the value is the given text, the data type its
/// one-letter code, and no error is set.
pub open spec fn spec_tag_shape(tag: crate::tag::Tag, class: Seq<char>, idx: int, t: DataType)
    -> bool {
    &&& tag.device@ == class + spec_dec_digits(idx as nat)
    &&& tag.value is Some
    &&& tag.data_type matches Some(c) && c@ == t.spec_struct_code()
    &&& tag.error is None
}

impl Session {
    /// Decode a batch-read response into one tag per element, starting at the
    /// variant's data offset.  Fails with `InvalidDeviceToken` on a bad device
    /// token and with `DecodeError` on a short or undecodable buffer.
    pub fn batch_read_decode(
        &self,
        recv_data: &[u8],
        ref_device: &str,
        read_size: usize,
        data_type: &DataType,
        decode: bool,
    ) -> (r: Result<Vec<crate::tag::Tag>, MelsecError>)
        requires
            match spec_parse_device(ref_device@) {
                Some(p) => p.1 + read_size <= 0x7fffffff,
                None => true,
            },
        ensures
            r matches Err(e) ==> ((spec_parse_device(ref_device@) is None && e
                is InvalidDeviceToken) || e is DecodeError),
            r matches Ok(tags) ==> (spec_parse_device(ref_device@) matches Some(p)
                && tags@.len() == read_size && (forall|i: int|
                0 <= i < read_size ==> spec_tag_shape(#[trigger] tags@[i], p.0, p.1 + i, *data_type))),
            self.endian != Endianness::Native ==> match r {
                Ok(tags) => match spec_parse_device(ref_device@) {
                    Some(p) => forall|i: int|
                        0 <= i < read_size ==> (#[trigger] tags@[i].value matches Some(v)
                            && spec_batch_element_value(
                            self.endian,
                            *self,
                            *data_type,
                            decode,
                            recv_data@,
                            i,
                        ) == Some(v@)),
                    None => false,
                },
                Err(e) => true,
            },
            self.endian != Endianness::Native ==> (r is Ok <==> (spec_parse_device(ref_device@)
                is Some && forall|i: int|
                0 <= i < read_size ==> (#[trigger] spec_batch_element_value(
                    self.endian,
                    *self,
                    *data_type,
                    decode,
                    recv_data@,
                    i,
                )) is Some)),
    {
        let (class, index) = match parse_device(ref_device) {
            Ok(p) => p,
            Err(e) => {
                return Err(e);
            },
        };
        let is_bit = *data_type == DataType::BIT;
        let binary = match self.comm_type {
            WireEncoding::Binary => true,
            WireEncoding::Ascii => false,
        };
        let off = self.frame.get_response_data_index(self.comm_type);
        let sz = data_type.size() as usize;
        let mut tags: Vec<crate::tag::Tag> = Vec::new();
        if read_size == 0 {
            return Ok(tags);
        }
        proof {
            assert((read_size as int) * (sz as int) <= (read_size as int) * 8) by (nonlinear_arith)
                requires
                    sz as int <= 8,
                    read_size as int >= 0,
            ;
        }
        let needed: u128 = if is_bit {
            if binary {
                off as u128 + ((read_size - 1) / 2) as u128 + 1
            } else {
                off as u128 + read_size as u128
            }
        } else {
            off as u128 + (read_size as u128) * (sz as u128)
        };
        if (recv_data.len() as u128) < needed {
            proof {
                let last = read_size - 1;
                if !is_bit {
                    vstd::arithmetic::mul::lemma_mul_inequality(
                        read_size as int,
                        read_size as int,
                        sz as int,
                    );
                    assert(spec_batch_element_value(
                        self.endian,
                        *self,
                        *data_type,
                        decode,
                        recv_data@,
                        last,
                    ) is None);
                } else {
                    assert(spec_batch_element_value(
                        self.endian,
                        *self,
                        *data_type,
                        decode,
                        recv_data@,
                        last,
                    ) is None);
                }
            }
            return Err(MelsecError::DecodeError);
        }
        let mut i: usize = 0;
        let mut di: usize = off;
        while i < read_size
            invariant
                i <= read_size,
                read_size >= 1,
                tags@.len() == i,
                sz == data_type.spec_size(),
                is_bit == (*data_type == DataType::BIT),
                binary == (self.comm_type == WireEncoding::Binary),
                off == self.frame.spec_data_index(self.comm_type),
                !is_bit ==> di == off + i * sz,
                !is_bit ==> off + read_size * sz <= recv_data@.len(),
                recv_data@.len() <= usize::MAX,
                is_bit && binary ==> off + ((read_size - 1) / 2) + 1 <= recv_data@.len(),
                is_bit && !binary ==> off + read_size <= recv_data@.len(),
                spec_parse_device(ref_device@) == Some((class@, index as int)),
                index + read_size <= 0x7fffffff,
                index >= 0,
                forall|j: int|
                    0 <= j < i ==> spec_tag_shape(
                        #[trigger] tags@[j],
                        class@,
                        index + j,
                        *data_type,
                    ),
                self.endian != Endianness::Native ==> forall|j: int|
                    0 <= j < i ==> (#[trigger] tags@[j].value matches Some(v)
                        && spec_batch_element_value(
                        self.endian,
                        *self,
                        *data_type,
                        decode,
                        recv_data@,
                        j,
                    ) == Some(v@)),
            decreases read_size - i,
        {
            let mut device = class.clone();
            device.append(crate::text::dec_str_u64(index as u64 + i as u64).as_str());
            let value: String = if is_bit {
                if binary {
                    let byte = recv_data[off + i / 2];
                    let bit_value: u8 = if decode {
                        if i % 2 == 0 {
                            if byte & 16 != 0 {
                                1
                            } else {
                                0
                            }
                        } else {
                            if byte & 1 != 0 {
                                1
                            } else {
                                0
                            }
                        }
                    } else {
                        byte
                    };
                    crate::text::dec_str_u64(bit_value as u64)
                } else {
                    let byte = recv_data[off + i];
                    crate::text::dec_str_u64(byte as u64)
                }
            } else {
                proof {
                    vstd::arithmetic::mul::lemma_mul_inequality(
                        i + 1,
                        read_size as int,
                        sz as int,
                    );
                    assert((i + 1) * sz == i * sz + sz) by (nonlinear_arith);
                    assert(di + sz == off + (i + 1) * sz);
                    assert(di + sz <= recv_data@.len());
                }
                let chunk = slice_subrange(recv_data, di, di + sz);
                if decode {
                    let v = match self.decode_value(chunk, data_type, false) {
                        Ok(v) => v,
                        Err(e) => {
                            proof {
                                assert(chunk@ =~= recv_data@.subrange(
                                    off + i * sz,
                                    off + (i + 1) * sz,
                                ));
                                if self.endian != Endianness::Native {
                                    assert(spec_batch_element_value(
                                        self.endian,
                                        *self,
                                        *data_type,
                                        decode,
                                        recv_data@,
                                        i as int,
                                    ) is None);
                                }
                            }
                            return Err(e);
                        },
                    };
                    proof {
                        assert(v >= 0);
                    }
                    crate::text::dec_str_u64(v as u64)
                } else {
                    match crate::text::utf8_string(slice_to_vec(chunk)) {
                        Some(s) => s,
                        None => {
                            proof {
                                assert(chunk@ =~= recv_data@.subrange(
                                    off + i * sz,
                                    off + (i + 1) * sz,
                                ));
                                if self.endian != Endianness::Native {
                                    assert(spec_batch_element_value(
                                        self.endian,
                                        *self,
                                        *data_type,
                                        decode,
                                        recv_data@,
                                        i as int,
                                    ) is None);
                                }
                            }
                            return Err(MelsecError::DecodeError);
                        },
                    }
                }
            };
            let tag = crate::tag::Tag {
                device,
                value: Some(value),
                data_type: Some(data_type.to_struct_type().to_owned()),
                error: None,
            };
            tags.push(tag);
            if !is_bit {
                di = di + sz;
            }
            i = i + 1;
        }
        proof {
            if self.endian != Endianness::Native {
                assert forall|i: int| 0 <= i < read_size implies (#[trigger] spec_batch_element_value(
                    self.endian,
                    *self,
                    *data_type,
                    decode,
                    recv_data@,
                    i,
                )) is Some by {
                    assert(tags@[i].value is Some);
                }
            }
        }
        Ok(tags)
    }
}

/// The word count of a request: each element contributes half its width.
pub open spec fn spec_words_count(ds: Seq<crate::tag::QueryTag>) -> int
    decreases ds.len(),
{
    if ds.len() == 0 {
        0
    } else {
        spec_words_count(ds.drop_last()) + ds.last().data_type.spec_size() / 2
    }
}

/// The device entries of a multi-word element: one per word, at consecutive
/// indices starting from the element's own.
pub open spec fn spec_multi_device_bytes(s: Session, c: Seq<char>, idx: int, k: int) -> Result<
    Seq<u8>,
    MelsecError,
>
    decreases k,
{
    if k <= 0 {
        Ok(Seq::empty())
    } else {
        match spec_multi_device_bytes(s, c, idx, k - 1) {
            Err(e) => Err(e),
            Ok(pre) => match spec_device_data(s, c + spec_dec_digits((idx + k - 1) as nat)) {
                Err(e) => Err(e),
                Ok(dd) => Ok(pre + dd),
            },
        }
    }
}

/// The device entries of one element: a single entry for a one-word type, one
/// entry per word at consecutive indices otherwise.
pub open spec fn spec_expanded_device_bytes(s: Session, dev: Seq<char>, size: int) -> Result<
    Seq<u8>,
    MelsecError,
> {
    if size / 2 <= 1 {
        spec_device_data(s, dev)
    } else {
        match spec_parse_device(dev) {
            None => Err(MelsecError::InvalidDeviceToken),
            Some(p) => spec_multi_device_bytes(s, p.0, p.1, size / 2),
        }
    }
}

/// The concatenated device entries of a random-read request, first failure
/// first.
pub open spec fn spec_random_devices_bytes(s: Session, ds: Seq<crate::tag::QueryTag>) -> Result<
    Seq<u8>,
    MelsecError,
>
    decreases ds.len(),
{
    if ds.len() == 0 {
        Ok(Seq::empty())
    } else {
        match spec_random_devices_bytes(s, ds.drop_last()) {
            Err(e) => Err(e),
            Ok(pre) => match spec_expanded_device_bytes(
                s,
                ds.last().device@,
                ds.last().data_type.spec_size(),
            ) {
                Err(e) => Err(e),
                Ok(dd) => Ok(pre + dd),
            },
        }
    }
}

/// An erring prefix decides the whole device list.
proof fn lemma_rdb_err_prefix(s: Session, ds: Seq<crate::tag::QueryTag>, j: int)
    requires
        0 <= j <= ds.len(),
        spec_random_devices_bytes(s, ds.take(j)) is Err,
    ensures
        spec_random_devices_bytes(s, ds) == spec_random_devices_bytes(s, ds.take(j)),
    decreases ds.len() - j,
{
    if j < ds.len() {
        assert(ds.take(j + 1).drop_last() =~= ds.take(j));
        assert(ds.take(j + 1).last() == ds[j]);
        lemma_rdb_err_prefix(s, ds, j + 1);
    } else {
        assert(ds.take(j) =~= ds);
    }
}

/// An erring step decides the whole multi-word expansion.
proof fn lemma_multi_err_prefix(s: Session, c: Seq<char>, idx: int, k: int, kk: int)
    requires
        0 <= k <= kk,
        spec_multi_device_bytes(s, c, idx, k) is Err,
    ensures
        spec_multi_device_bytes(s, c, idx, kk) == spec_multi_device_bytes(s, c, idx, k),
    decreases kk - k,
{
    if k < kk {
        lemma_multi_err_prefix(s, c, idx, k + 1, kk);
    }
}

/// A full random-read request frame, or nothing when the word count is zero
/// and no exchange is owed.
pub open spec fn spec_random_read_request(s: Session, ds: Seq<crate::tag::QueryTag>) -> Result<
    Option<Seq<u8>>,
    MelsecError,
> {
    match spec_random_devices_bytes(s, ds) {
        Err(e) => Err(e),
        Ok(db) => if spec_words_count(ds) < 1 {
            Ok(None)
        } else {
            Ok(
                Some(
                    spec_frame_bytes(
                        s,
                        spec_command_bytes(0x0403u16, spec_subcommand(s, false)) + seq![
                            (spec_words_count(ds) % 256) as u8,
                            0u8,
                        ] + db,
                    ),
                ),
            )
        },
    }
}

impl Session {
    fn expanded_device_bytes(&self, device: &str, size: i8) -> (r: Result<Vec<u8>, MelsecError>)
        requires
            size == 2 || size == 4 || size == 8,
            match spec_parse_device(device@) {
                Some(p) => p.1 + size / 2 <= 0x7fffffff,
                None => true,
            },
        ensures
            r matches Ok(b) ==> spec_expanded_device_bytes(*self, device@, size as int) == Ok::<
                Seq<u8>,
                MelsecError,
            >(b@),
            r matches Err(e) ==> spec_expanded_device_bytes(*self, device@, size as int) == Err::<
                Seq<u8>,
                MelsecError,
            >(e),
    {
        let esize = (size / 2) as usize;
        if esize <= 1 {
            self.build_device_data(device)
        } else {
            let (class, index) = match parse_device(device) {
                Ok(p) => p,
                Err(_) => {
                    return Err(MelsecError::InvalidDeviceToken);
                },
            };
            let mut out: Vec<u8> = Vec::new();
            let mut k: usize = 0;
            while k < esize
                invariant
                    k <= esize,
                    esize == size as int / 2,
                    2 <= esize <= 4,
                    index >= 0,
                    index + esize <= 0x7fffffff,
                    spec_parse_device(device@) == Some((class@, index as int)),
                    spec_multi_device_bytes(*self, class@, index as int, k as int) == Ok::<
                        Seq<u8>,
                        MelsecError,
                    >(out@),
                decreases esize - k,
            {
                let mut name = class.clone();
                name.append(crate::text::dec_str_u64(index as u64 + k as u64).as_str());
                let mut dd = match self.build_device_data(name.as_str()) {
                    Ok(b) => b,
                    Err(e) => {
                        proof {
                            assert(name@ == class@ + spec_dec_digits((index + k) as nat));
                            assert(spec_multi_device_bytes(
                                *self,
                                class@,
                                index as int,
                                k + 1,
                            ) == Err::<Seq<u8>, MelsecError>(e));
                            lemma_multi_err_prefix(
                                *self,
                                class@,
                                index as int,
                                k + 1,
                                esize as int,
                            );
                            assert(spec_multi_device_bytes(
                                *self,
                                class@,
                                index as int,
                                esize as int,
                            ) == Err::<Seq<u8>, MelsecError>(e));
                        }
                        return Err(e);
                    },
                };
                out.append(&mut dd);
                k = k + 1;
            }
            Ok(out)
        }
    }

    /// Build a random-read request for an explicit list of devices.  A
    /// multi-word element expands into one device entry per word, at
    /// consecutive indices.  An empty word count owes no exchange and yields
    /// no frame.
    pub fn random_read_request(&self, devices: &Vec<crate::tag::QueryTag>) -> (r: Result<
        Option<Vec<u8>>,
        MelsecError,
    >)
        requires
            devices@.len() <= 0x1000000000000000,
            forall|i: int|
                0 <= i < devices@.len() ==> match spec_parse_device(
                    (#[trigger] devices@[i]).device@,
                ) {
                    Some(p) => p.1 + devices@[i].data_type.spec_size() / 2 <= 0x7fffffff,
                    None => true,
                },
        ensures
            r matches Ok(o) ==> match o {
                None => spec_random_read_request(*self, devices@) == Ok::<
                    Option<Seq<u8>>,
                    MelsecError,
                >(None),
                Some(b) => spec_random_read_request(*self, devices@) == Ok::<
                    Option<Seq<u8>>,
                    MelsecError,
                >(Some(b@)),
            },
            r matches Err(e) ==> spec_random_read_request(*self, devices@) == Err::<
                Option<Seq<u8>>,
                MelsecError,
            >(e),
    {
        let mut words_count: i64 = 0;
        let mut i: usize = 0;
        while i < devices.len()
            invariant
                i <= devices@.len(),
                devices@.len() <= 0x1000000000000000,
                words_count == spec_words_count(devices@.take(i as int)),
                0 <= words_count <= 4 * i,
            decreases devices@.len() - i,
        {
            let sz = devices[i].data_type.size();
            words_count = words_count + (sz / 2) as i64;
            i = i + 1;
            proof {
                assert(devices@.take(i as int).drop_last() =~= devices@.take(i - 1));
                assert(devices@.take(i as int).last() == devices@[i - 1]);
            }
        }
        proof {
            assert(devices@.take(devices@.len() as int) =~= devices@);
        }
        let mut request = match self.build_command_data(
            crate::db::RANDOM_READ,
            self.subcommand_for(false),
        ) {
            Ok(b) => b,
            Err(e) => {
                return Err(e);
            },
        };
        let mut wb = self.encode_byte_field(words_count);
        request.append(&mut wb);
        let mut zb = self.encode_byte_field(0);
        request.append(&mut zb);
        proof {
            crate::wire::lemma_le_bytes_1(words_count as nat);
            crate::wire::lemma_le_bytes_1(0);
        }
        let ghost header = request@;
        let mut j: usize = 0;
        while j < devices.len()
            invariant
                j <= devices@.len(),
                forall|m: int|
                    0 <= m < devices@.len() ==> match spec_parse_device(
                        (#[trigger] devices@[m]).device@,
                    ) {
                        Some(p) => p.1 + devices@[m].data_type.spec_size() / 2 <= 0x7fffffff,
                        None => true,
                    },
                spec_random_devices_bytes(*self, devices@.take(j as int)) matches Ok(db)
                    && request@ == header + db,
            decreases devices@.len() - j,
        {
            let element = &devices[j];
            let sz = element.data_type.size();
            let mut dd = match self.expanded_device_bytes(element.device.as_str(), sz) {
                Ok(b) => b,
                Err(e) => {
                    proof {
                        assert(devices@.take(j + 1).drop_last() =~= devices@.take(j as int));
                        assert(devices@.take(j + 1).last() == devices@[j as int]);
                        assert(spec_random_devices_bytes(*self, devices@.take(j + 1)) is Err);
                        lemma_rdb_err_prefix(*self, devices@, j + 1);
                        assert(devices@.take(devices@.len() as int) =~= devices@);
                    }
                    return Err(e);
                },
            };
            request.append(&mut dd);
            j = j + 1;
            proof {
                assert(devices@.take(j as int).drop_last() =~= devices@.take(j - 1));
                assert(devices@.take(j as int).last() == devices@[j - 1]);
            }
        }
        proof {
            assert(devices@.take(devices@.len() as int) =~= devices@);
        }
        if words_count < 1 {
            return Ok(None);
        }
        let send = match self.build_send_data(request.as_slice()) {
            Ok(b) => b,
            Err(_) => {
                return Err(MelsecError::DecodeError);
            },
        };
        proof {
            assert(header =~= spec_command_bytes(0x0403u16, spec_subcommand(*self, false)) + seq![
                (spec_words_count(devices@) % 256) as u8,
                0u8,
            ]);
        }
        Ok(Some(send))
    }
}

/// Byte offset of element `i`'s value within the data field: the widths of
/// the elements before it.
pub open spec fn spec_rr_prefix(ds: Seq<crate::tag::QueryTag>, i: int) -> int
    decreases i,
{
    if i <= 0 {
        0
    } else {
        spec_rr_prefix(ds, i - 1) + ds[i - 1].data_type.spec_size()
    }
}

/// The numeric value of one random-read element: its first byte, after the
/// hex text is undone in ASCII mode.  Nothing on a short or malformed buffer.
pub open spec fn spec_rr_value(s: Session, recv: Seq<u8>, start: int, size: int) -> Option<int> {
    if 0 <= start && start + size <= recv.len() {
        match spec_wire_bytes(s.comm_type, recv.subrange(start, start + size)) {
            None => None,
            Some(b) => spec_decode_num(true, 2, false, b),
        }
    } else {
        None
    }
}

/// The value of element `i` of a random-read response.
pub open spec fn spec_rr_elem(
    s: Session,
    recv: Seq<u8>,
    ds: Seq<crate::tag::QueryTag>,
    i: int,
) -> Option<int> {
    spec_rr_value(
        s,
        recv,
        s.frame.spec_data_index(s.comm_type) + spec_rr_prefix(ds, i),
        ds[i].data_type.spec_size(),
    )
}

impl Session {
    /// Decode a random-read response: one tag per queried device, in order,
    /// each value read from the element's first byte.  Fails with
    /// `DecodeError` on a short or undecodable buffer.
    pub fn random_read_decode(&self, recv_data: &[u8], devices: Vec<crate::tag::QueryTag>) -> (r:
        Result<Vec<crate::tag::Tag>, MelsecError>)
        ensures
            r matches Err(e) ==> e is DecodeError,
            r is Ok <==> (forall|i: int|
                0 <= i < devices@.len() ==> (#[trigger] spec_rr_elem(
                    *self,
                    recv_data@,
                    devices@,
                    i,
                )) is Some),
            r matches Ok(tags) ==> tags@.len() == devices@.len() && (forall|i: int|
                0 <= i < devices@.len() ==> {
                    &&& (#[trigger] tags@[i]).device@ == devices@[i].device@
                    &&& tags@[i].value matches Some(v) && spec_rr_elem(
                        *self,
                        recv_data@,
                        devices@,
                        i,
                    ) matches Some(x) && v@ == spec_dec_digits(x as nat)
                    &&& tags@[i].data_type matches Some(c) && c@
                        == devices@[i].data_type.spec_struct_code()
                    &&& tags@[i].error is None
                }),
    {
        let off = self.frame.get_response_data_index(self.comm_type);
        let rlen = recv_data.len();
        proof {
            assert(recv_data@.len() == rlen);
        }
        let mut tags: Vec<crate::tag::Tag> = Vec::new();
        let mut di: usize = off;
        let mut i: usize = 0;
        while i < devices.len()
            invariant
                i <= devices@.len(),
                tags@.len() == i,
                off == self.frame.spec_data_index(self.comm_type),
                di == off + spec_rr_prefix(devices@, i as int),
                recv_data@.len() <= usize::MAX,
                i > 0 ==> di <= recv_data@.len(),
                i == 0 ==> di == off,
                forall|j: int|
                    0 <= j < i ==> (#[trigger] spec_rr_elem(*self, recv_data@, devices@, j))
                        is Some,
                forall|j: int|
                    0 <= j < i ==> {
                        &&& (#[trigger] tags@[j]).device@ == devices@[j].device@
                        &&& tags@[j].value matches Some(v) && spec_rr_elem(
                            *self,
                            recv_data@,
                            devices@,
                            j,
                        ) matches Some(x) && v@ == spec_dec_digits(x as nat)
                        &&& tags@[j].data_type matches Some(c) && c@
                            == devices@[j].data_type.spec_struct_code()
                        &&& tags@[j].error is None
                    },
            decreases devices@.len() - i,
        {
            let element = &devices[i];
            let sz = element.data_type.size() as usize;
            if di > recv_data.len() || recv_data.len() - di < sz {
                proof {
                    assert(spec_rr_elem(*self, recv_data@, devices@, i as int) is None);
                }
                return Err(MelsecError::DecodeError);
            }
            let chunk = slice_subrange(recv_data, di, di + sz);
            let v = match self.decode_value(chunk, &DataType::BIT, false) {
                Ok(v) => v,
                Err(e) => {
                    proof {
                        assert(chunk@ =~= recv_data@.subrange(di as int, di + sz));
                        assert(spec_decode_value(
                            true,
                            self.comm_type,
                            2,
                            false,
                            chunk@,
                        ) == spec_decode_value(false, self.comm_type, 2, false, chunk@));
                        assert(spec_rr_elem(*self, recv_data@, devices@, i as int) is None);
                    }
                    return Err(MelsecError::DecodeError);
                },
            };
            proof {
                assert(chunk@ =~= recv_data@.subrange(di as int, di + sz));
                assert(spec_decode_value(true, self.comm_type, 2, false, chunk@)
                    == spec_decode_value(false, self.comm_type, 2, false, chunk@));
                assert(v >= 0);
            }
            let tag = crate::tag::Tag {
                device: element.device.clone(),
                value: Some(crate::text::dec_str_u64(v as u64)),
                data_type: Some(element.data_type.to_struct_type().to_owned()),
                error: None,
            };
            tags.push(tag);
            di = di + sz;
            i = i + 1;
        }
        Ok(tags)
    }
}

/// The data type a tag carries, named by its one-letter code.
pub open spec fn spec_tag_type(tag: crate::tag::Tag) -> Option<DataType> {
    match tag.data_type {
        None => None,
        Some(c) => DataType::spec_from_str(c@),
    }
}

/// The word count of a random write: every element contributes half its
/// width, boolean elements included, though their data travels in separate
/// batch-write frames.
pub open spec fn spec_tags_words(ds: Seq<crate::tag::Tag>) -> int
    decreases ds.len(),
{
    if ds.len() == 0 {
        0
    } else {
        spec_tags_words(ds.drop_last()) + (match spec_tag_type(ds.last()) {
            Some(t) => t.spec_size() / 2,
            None => 0,
        })
    }
}

/// How many bytes the codec emits for a value of the given width under the
/// given byte order.
pub open spec fn spec_encoded_len(e: Endianness, size: int) -> int {
    if size == 2 {
        1
    } else if e == Endianness::Little {
        if size == 4 {
            2
        } else {
            4
        }
    } else if e == Endianness::Big {
        4
    } else {
        8
    }
}

/// The main-payload part of one multi-word element: one device entry per word
/// at consecutive indices, each followed by one word-sized chunk of the
/// encoded value.
pub open spec fn spec_rw_multi(
    s: Session,
    c: Seq<char>,
    idx: int,
    k: int,
    enc: Seq<u8>,
    ws: int,
) -> Result<Seq<u8>, MelsecError>
    decreases k,
{
    if k <= 0 {
        Ok(Seq::empty())
    } else {
        match spec_rw_multi(s, c, idx, k - 1, enc, ws) {
            Err(e) => Err(e),
            Ok(pre) => match spec_device_data(s, c + spec_dec_digits((idx + k - 1) as nat)) {
                Err(e) => Err(e),
                Ok(dd) => Ok(pre + dd + enc.subrange((k - 1) * ws, k * ws)),
            },
        }
    }
}

proof fn lemma_rw_multi_err_prefix(
    s: Session,
    c: Seq<char>,
    idx: int,
    k: int,
    kk: int,
    enc: Seq<u8>,
    ws: int,
)
    requires
        0 <= k <= kk,
        spec_rw_multi(s, c, idx, k, enc, ws) is Err,
    ensures
        spec_rw_multi(s, c, idx, kk, enc, ws) == spec_rw_multi(s, c, idx, k, enc, ws),
    decreases kk - k,
{
    if k < kk {
        lemma_rw_multi_err_prefix(s, c, idx, k + 1, kk, enc, ws);
    }
}

/// A multi-word expansion succeeds or fails alike under every byte order: the
/// device entries do not depend on the encoded value.
proof fn lemma_rw_multi_ok_same(
    s: Session,
    c: Seq<char>,
    idx: int,
    k: int,
    enc1: Seq<u8>,
    enc2: Seq<u8>,
    ws: int,
)
    ensures
        spec_rw_multi(s, c, idx, k, enc1, ws) is Ok <==> spec_rw_multi(s, c, idx, k, enc2, ws)
            is Ok,
        spec_rw_multi(s, c, idx, k, enc1, ws) matches Err(e) ==> spec_rw_multi(
            s,
            c,
            idx,
            k,
            enc2,
            ws,
        ) == Err::<Seq<u8>, MelsecError>(e),
    decreases k,
{
    if k > 0 {
        lemma_rw_multi_ok_same(s, c, idx, k - 1, enc1, enc2, ws);
    }
}

/// What one element contributes to a random write: at most one delegated
/// batch-write frame, and a piece of the main payload.
pub open spec fn spec_rw_element(s: Session, tag: crate::tag::Tag) -> Result<
    (Option<Seq<u8>>, Seq<u8>),
    MelsecError,
> {
    match spec_tag_type(tag) {
        None => Err(MelsecError::DecodeError),
        Some(t) => if t is BIT {
            match tag.value {
                None => Ok((None, Seq::empty())),
                Some(v) => match spec_batch_write_request(
                    s,
                    tag.device@,
                    crate::text::spec_bit_values(crate::text::spec_tokens(v@)),
                    DataType::BIT,
                ) {
                    Err(e) => Err(e),
                    Ok(f) => Ok((Some(f), Seq::empty())),
                },
            }
        } else {
            match tag.value {
                None => Err(MelsecError::DecodeError),
                Some(vs) => match crate::text::spec_parse_i64(vs@) {
                    None => Err(MelsecError::DecodeError),
                    Some(pv) => {
                        let enc = spec_encoded_one(s, t, pv);
                        if t.spec_size() / 2 <= 1 {
                            match spec_device_data(s, tag.device@) {
                                Err(e) => Err(e),
                                Ok(dd) => Ok((None, dd + enc)),
                            }
                        } else {
                            match spec_parse_device(tag.device@) {
                                None => Err(MelsecError::InvalidDeviceToken),
                                Some(p) => match spec_rw_multi(
                                    s,
                                    p.0,
                                    p.1,
                                    t.spec_size() / 2,
                                    enc,
                                    spec_word_size(s.comm_type),
                                ) {
                                    Err(e) => Err(e),
                                    Ok(part) => Ok((None, part)),
                                },
                            }
                        }
                    },
                },
            }
        },
    }
}

/// The parts of a random write: the batch-write frames its boolean elements
/// delegate to, in order, and the main payload the other elements build,
/// first failure first.
pub open spec fn spec_rw_parts(s: Session, ds: Seq<crate::tag::Tag>) -> Result<
    (Seq<Seq<u8>>, Seq<u8>),
    MelsecError,
>
    decreases ds.len(),
{
    if ds.len() == 0 {
        Ok((Seq::empty(), Seq::empty()))
    } else {
        match spec_rw_parts(s, ds.drop_last()) {
            Err(e) => Err(e),
            Ok(parts) => match spec_rw_element(s, ds.last()) {
                Err(e) => Err(e),
                Ok(piece) => Ok(
                    (
                        match piece.0 {
                            None => parts.0,
                            Some(f) => parts.0.push(f),
                        },
                        parts.1 + piece.1,
                    ),
                ),
            },
        }
    }
}

proof fn lemma_rw_parts_err_prefix(s: Session, ds: Seq<crate::tag::Tag>, j: int)
    requires
        0 <= j <= ds.len(),
        spec_rw_parts(s, ds.take(j)) is Err,
    ensures
        spec_rw_parts(s, ds) == spec_rw_parts(s, ds.take(j)),
    decreases ds.len() - j,
{
    if j < ds.len() {
        assert(ds.take(j + 1).drop_last() =~= ds.take(j));
        assert(ds.take(j + 1).last() == ds[j]);
        lemma_rw_parts_err_prefix(s, ds, j + 1);
    } else {
        assert(ds.take(j) =~= ds);
    }
}

/// All the frames of a random write, in send order: one batch-write frame per
/// boolean element with a value, then the main random-write frame.
pub open spec fn spec_random_write_frames(s: Session, ds: Seq<crate::tag::Tag>) -> Result<
    Seq<Seq<u8>>,
    MelsecError,
> {
    match spec_rw_parts(s, ds) {
        Err(e) => Err(e),
        Ok(parts) => Ok(
            parts.0.push(
                spec_frame_bytes(
                    s,
                    spec_command_bytes(0x1402u16, spec_subcommand(s, false)) + seq![
                        (spec_tags_words(ds) % 256) as u8,
                        0u8,
                    ] + parts.1,
                ),
            ),
        ),
    }
}

/// What a random write asks of each element: a resolvable type code; for a
/// non-boolean element, a value that parses as a decimal integer, not
/// negative for an unsigned type, whose encoding covers one word per device
/// entry, at indices that stay in range.
pub open spec fn spec_rw_element_ok(s: Session, tag: crate::tag::Tag) -> bool {
    match spec_tag_type(tag) {
        None => false,
        Some(t) => t is BIT || (match tag.value {
            None => false,
            Some(vs) => match crate::text::spec_parse_i64(vs@) {
                None => false,
                Some(pv) => {
                    &&& ((t == DataType::UWORD || t == DataType::UDWORD) ==> pv >= 0)
                    &&& (t.spec_size() / 2 > 1 ==> (t.spec_size() / 2) * spec_word_size(
                        s.comm_type,
                    ) <= spec_encoded_len(s.endian, t.spec_size()) && (match spec_parse_device(
                        tag.device@,
                    ) {
                        Some(p) => p.1 + t.spec_size() / 2 <= 0x7fffffff,
                        None => true,
                    }))
                },
            },
        }),
    }
}

impl Session {
    /// One element of a random write: the optional delegated batch-write
    /// frame and the element's piece of the main payload.
    fn rw_element_bytes(&self, element: &crate::tag::Tag) -> (r: Result<
        (Option<Vec<u8>>, Vec<u8>),
        MelsecError,
    >)
        requires
            spec_rw_element_ok(*self, *element),
        ensures
            r matches Err(e) ==> spec_rw_element(*self, *element) == Err::<
                (Option<Seq<u8>>, Seq<u8>),
                MelsecError,
            >(e),
            r is Ok <==> spec_rw_element(*self, *element) is Ok,
            r matches Ok(p) ==> (spec_rw_element(*self, *element) matches Ok(sp) && (p.0 is Some
                <==> sp.0 is Some) && (self.endian != Endianness::Native ==> (match p.0 {
                Some(f) => sp.0 == Some(f@),
                None => sp.0 is None,
            } && p.1@ == sp.1))),
    {
        let code: &str = match &element.data_type {
            Some(c) => c.as_str(),
            None => {
                proof {
                    assert(false);
                }
                ""
            },
        };
        let t = match DataType::from_str(code) {
            Some(t) => t,
            None => {
                proof {
                    assert(false);
                }
                DataType::BIT
            },
        };
        proof {
            assert(spec_tag_type(*element) == Some(t));
        }
        if t == DataType::BIT {
            match &element.value {
                None => Ok((None, Vec::new())),
                Some(v) => {
                    let bits = crate::text::parse_bit_list(v.as_str());
                    match self.batch_write_request(element.device.as_str(), &bits, &DataType::BIT)
                    {
                        Ok(f) => Ok((Some(f), Vec::new())),
                        Err(e) => Err(e),
                    }
                },
            }
        } else {
            let vs: &String = match &element.value {
                Some(v) => v,
                None => {
                    proof {
                        assert(false);
                    }
                    return Err(MelsecError::DecodeError);
                },
            };
            let parsed: i64 = match crate::text::parse_i64(vs.as_str()) {
                Some(v) => v,
                None => {
                    proof {
                        assert(false);
                    }
                    return Err(MelsecError::DecodeError);
                },
            };
            let unsigned = t == DataType::UWORD || t == DataType::UDWORD;
            if unsigned && parsed < 0 {
                let mut renamed = {
                    proof { reveal_strlit("-"); }
                    "-".to_owned()
                };
                renamed.append(vs.as_str());
                match crate::text::parse_i64(renamed.as_str()) {
                    Some(_) => {},
                    None => {
                        return Err(MelsecError::DecodeError);
                    },
                }
            }
            let enc = match self.encode_value(parsed, t, false) {
                Ok(b) => b,
                Err(_) => Vec::new(),
            };
            let esize = (t.size() / 2) as usize;
            if esize <= 1 {
                let mut out = match self.build_device_data(element.device.as_str()) {
                    Ok(b) => b,
                    Err(e) => {
                        return Err(e);
                    },
                };
                let mut encv = enc;
                out.append(&mut encv);
                Ok((None, out))
            } else {
                let ws = self.word_size();
                proof {
                    crate::wire::lemma_bytes_len(u64_of_i64(parsed), 1);
                    crate::wire::lemma_bytes_len(u64_of_i64(parsed), 2);
                    crate::wire::lemma_bytes_len(u64_of_i64(parsed), 4);
                    crate::wire::lemma_bytes_len(u64_of_i64(parsed), 8);
                    assert(enc@.len() == spec_encoded_len(self.endian, t.spec_size()));
                }
                let (class, index) = match parse_device(element.device.as_str()) {
                    Ok(p) => p,
                    Err(_) => {
                        return Err(MelsecError::InvalidDeviceToken);
                    },
                };
                let ghost enc_spec = spec_encoded_one(*self, t, parsed);
                let mut out: Vec<u8> = Vec::new();
                let mut d: usize = 0;
                let mut k: usize = 0;
                while k < esize
                    invariant
                        k <= esize,
                        esize == t.spec_size() / 2,
                        2 <= esize <= 4,
                        ws == spec_word_size(self.comm_type),
                        2 <= ws <= 4,
                        d == k * ws,
                        esize * ws <= enc@.len(),
                        index >= 0,
                        index + esize <= 0x7fffffff,
                        spec_parse_device(element.device@) == Some((class@, index as int)),
                        self.endian != Endianness::Native ==> enc@ == enc_spec,
                        enc_spec == spec_encoded_one(*self, t, parsed),
                        spec_tag_type(*element) == Some(t),
                        !(t is BIT),
                        (element.value matches Some(v2) && crate::text::spec_parse_i64(v2@)
                            == Some(parsed)),
                        spec_rw_multi(*self, class@, index as int, k as int, enc@, ws as int)
                            matches Ok(part) && out@ == part,
                    decreases esize - k,
                {
                    let mut name = class.clone();
                    name.append(crate::text::dec_str_u64(index as u64 + k as u64).as_str());
                    let mut dd = match self.build_device_data(name.as_str()) {
                        Ok(b) => b,
                        Err(e) => {
                            proof {
                                assert(name@ == class@ + spec_dec_digits((index + k) as nat));
                                assert(spec_rw_multi(
                                    *self,
                                    class@,
                                    index as int,
                                    k + 1,
                                    enc@,
                                    ws as int,
                                ) == Err::<Seq<u8>, MelsecError>(e));
                                lemma_rw_multi_err_prefix(
                                    *self,
                                    class@,
                                    index as int,
                                    k + 1,
                                    esize as int,
                                    enc@,
                                    ws as int,
                                );
                                lemma_rw_multi_ok_same(
                                    *self,
                                    class@,
                                    index as int,
                                    esize as int,
                                    enc@,
                                    enc_spec,
                                    ws as int,
                                );
                            }
                            return Err(e);
                        },
                    };
                    out.append(&mut dd);
                    proof {
                        vstd::arithmetic::mul::lemma_mul_inequality(
                            k + 1,
                            esize as int,
                            ws as int,
                        );
                        assert((k + 1) * ws == k * ws + ws) by (nonlinear_arith);
                    }
                    let chunk = slice_subrange(enc.as_slice(), d, d + ws);
                    let mut cv = slice_to_vec(chunk);
                    out.append(&mut cv);
                    d = d + ws;
                    k = k + 1;
                    proof {
                        assert(chunk@ =~= enc@.subrange((k - 1) * ws, k as int * ws));
                    }
                }
                proof {
                    if self.endian == Endianness::Native {
                        lemma_rw_multi_ok_same(
                            *self,
                            class@,
                            index as int,
                            esize as int,
                            enc@,
                            enc_spec,
                            ws as int,
                        );
                    }
                }
                Ok((None, out))
            }
        }
    }

    /// Build the frames of a random write: each boolean element with a value
    /// delegates to a batch write of its whitespace-separated bit list; the
    /// other elements enter the main random-write frame, a multi-word element
    /// as consecutive single-word entries each carrying one chunk of the
    /// value's bytes.  The frames come back in send order, the main frame
    /// last.
    pub fn random_write_requests(&self, devices: Vec<crate::tag::Tag>) -> (r: Result<
        Vec<Vec<u8>>,
        MelsecError,
    >)
        requires
            devices@.len() <= 0x1000000000000000,
            forall|i: int|
                0 <= i < devices@.len() ==> spec_rw_element_ok(*self, #[trigger] devices@[i]),
        ensures
            r matches Err(e) ==> spec_random_write_frames(*self, devices@) == Err::<
                Seq<Seq<u8>>,
                MelsecError,
            >(e),
            r is Ok <==> spec_random_write_frames(*self, devices@) is Ok,
            self.endian != Endianness::Native ==> match r {
                Ok(frames) => spec_random_write_frames(*self, devices@) matches Ok(sf)
                    && frames@.len() == sf.len() && (forall|i: int|
                    0 <= i < sf.len() ==> (#[trigger] frames@[i])@ == sf[i]),
                Err(_) => true,
            },
    {
        let mut words_count: i64 = 0;
        let mut i: usize = 0;
        while i < devices.len()
            invariant
                i <= devices@.len(),
                devices@.len() <= 0x1000000000000000,
                words_count == spec_tags_words(devices@.take(i as int)),
                0 <= words_count <= 4 * i,
                forall|m: int|
                    0 <= m < devices@.len() ==> spec_rw_element_ok(*self, #[trigger] devices@[m]),
            decreases devices@.len() - i,
        {
            let element = &devices[i];
            let code: &str = match &element.data_type {
                Some(c) => c.as_str(),
                None => {
                    proof {
                        assert(false);
                    }
                    ""
                },
            };
            let t = match DataType::from_str(code) {
                Some(t) => t,
                None => {
                    proof {
                        assert(false);
                    }
                    DataType::BIT
                },
            };
            proof {
                assert(spec_tag_type(devices@[i as int]) == Some(t));
            }
            words_count = words_count + (t.size() / 2) as i64;
            i = i + 1;
            proof {
                assert(devices@.take(i as int).drop_last() =~= devices@.take(i - 1));
                assert(devices@.take(i as int).last() == devices@[i - 1]);
            }
        }
        proof {
            assert(devices@.take(devices@.len() as int) =~= devices@);
        }
        let mut request = match self.build_command_data(
            crate::db::RANDOM_WRITE,
            self.subcommand_for(false),
        ) {
            Ok(b) => b,
            Err(e) => {
                return Err(e);
            },
        };
        let mut wb = self.encode_byte_field(words_count);
        request.append(&mut wb);
        let mut zb = self.encode_byte_field(0);
        request.append(&mut zb);
        proof {
            crate::wire::lemma_le_bytes_1(words_count as nat);
            crate::wire::lemma_le_bytes_1(0);
            assert(request@ =~= spec_command_bytes(0x1402u16, spec_subcommand(*self, false))
                + seq![(spec_tags_words(devices@) % 256) as u8, 0u8]);
        }
        let ghost header = request@;
        let mut frames: Vec<Vec<u8>> = Vec::new();
        let mut j: usize = 0;
        while j < devices.len()
            invariant
                j <= devices@.len(),
                forall|m: int|
                    0 <= m < devices@.len() ==> spec_rw_element_ok(*self, #[trigger] devices@[m]),
                spec_rw_parts(*self, devices@.take(j as int)) is Ok,
                self.endian != Endianness::Native ==> (spec_rw_parts(
                    *self,
                    devices@.take(j as int),
                ) matches Ok(parts) && request@ == header + parts.1 && frames@.len()
                    == parts.0.len() && (forall|m: int|
                    0 <= m < parts.0.len() ==> (#[trigger] frames@[m])@ == parts.0[m])),
            decreases devices@.len() - j,
        {
            let element = &devices[j];
            proof {
                assert(devices@.take(j + 1).drop_last() =~= devices@.take(j as int));
                assert(devices@.take(j + 1).last() == devices@[j as int]);
            }
            let (bit_frame, mut piece) = match self.rw_element_bytes(element) {
                Ok(p) => p,
                Err(e) => {
                    proof {
                        assert(spec_rw_parts(*self, devices@.take(j + 1)) == Err::<
                            (Seq<Seq<u8>>, Seq<u8>),
                            MelsecError,
                        >(e));
                        lemma_rw_parts_err_prefix(*self, devices@, j + 1);
                    }
                    return Err(e);
                },
            };
            match bit_frame {
                Some(f) => {
                    frames.push(f);
                },
                None => {},
            }
            request.append(&mut piece);
            j = j + 1;
        }
        proof {
            assert(devices@.take(devices@.len() as int) =~= devices@);
        }
        let main = match self.build_send_data(request.as_slice()) {
            Ok(b) => b,
            Err(_) => {
                return Err(MelsecError::DecodeError);
            },
        };
        frames.push(main);
        Ok(frames)
    }
}

} // verus!
