//! Protocol vocabulary: command and subcommand opcodes, value data types with
//! their fixed widths, and the device-code tables keyed by PLC series, device
//! class and wire encoding.

use vstd::prelude::*;
use vstd::string::*;
use crate::err::MelsecError;
use crate::text::{all_ascii, spec_pad_star, pad_star, str_eq};

verus! {

pub const BATCH_READ: u16 = 0x0401;

pub const BATCH_WRITE: u16 = 0x1401;

pub const RANDOM_READ: u16 = 0x0403;

pub const RANDOM_WRITE: u16 = 0x1402;

pub const MONITOR_REG: u16 = 0x0801;

pub const MONITOR: u16 = 0x0802;

pub const REMOTE_RUN: u16 = 0x1001;

pub const REMOTE_STOP: u16 = 0x1002;

pub const REMOTE_PAUSE: u16 = 0x1003;

pub const REMOTE_LATCH_CLEAR: u16 = 0x1005;

pub const REMOTE_RESET: u16 = 0x1006;

pub const REMOTE_UNLOCK: u16 = 0x1630;

pub const REMOTE_LOCK: u16 = 0x1631;

pub const ERROR_LED_OFF: u16 = 0x1617;

pub const READ_CPU_MODEL: u16 = 0x0101;

pub const LOOPBACK_TEST: u16 = 0x0619;

pub const SUBCOMMAND_ZERO: u16 = 0x0000;

pub const SUBCOMMAND_ONE: u16 = 0x0001;

pub const SUBCOMMAND_TWO: u16 = 0x0002;

pub const SUBCOMMAND_THREE: u16 = 0x0003;

pub const SUBCOMMAND_FIVE: u16 = 0x0005;

pub const SUBCOMMAND_A: u16 = 0x000A;

pub const SUBCOMMAND_F: u16 = 0x000F;

/// The value types a device read or write can carry.  Each has a fixed width;
/// FLOAT and DOUBLE name the device-side interpretation only, and travel as
/// raw words of the same width here.
#[derive(Debug, PartialEq, Eq, Structural, Clone, Copy)]
pub enum DataType {
    BIT,
    SWORD,
    UWORD,
    SDWORD,
    UDWORD,
    FLOAT,
    DOUBLE,
    SLWORD,
    ULWORD,
}

impl DataType {
    /// The fixed byte width of this type.
    pub open spec fn spec_size(&self) -> int {
        match self {
            DataType::BIT | DataType::SWORD | DataType::UWORD => 2,
            DataType::SDWORD | DataType::UDWORD | DataType::FLOAT => 4,
            DataType::DOUBLE | DataType::SLWORD | DataType::ULWORD => 8,
        }
    }

    /// Width of the type: always one of 2, 4 or 8, and a function of the
    /// variant alone.
    pub fn size(&self) -> (r: i8)
        ensures
            r as int == self.spec_size(),
            r == 2 || r == 4 || r == 8,
    {
        match self {
            DataType::BIT | DataType::SWORD | DataType::UWORD => 2,
            DataType::SDWORD | DataType::UDWORD | DataType::FLOAT => 4,
            DataType::DOUBLE | DataType::SLWORD | DataType::ULWORD => 8,
        }
    }

    /// The type encoded by a one-letter format code.
    pub open spec fn spec_from_str(s: Seq<char>) -> Option<DataType> {
        if s == "b"@ {
            Some(DataType::BIT)
        } else if s == "h"@ {
            Some(DataType::SWORD)
        } else if s == "H"@ {
            Some(DataType::UWORD)
        } else if s == "i"@ {
            Some(DataType::SDWORD)
        } else if s == "I"@ {
            Some(DataType::UDWORD)
        } else if s == "f"@ {
            Some(DataType::FLOAT)
        } else if s == "d"@ {
            Some(DataType::DOUBLE)
        } else if s == "q"@ {
            Some(DataType::SLWORD)
        } else if s == "Q"@ {
            Some(DataType::ULWORD)
        } else {
            None
        }
    }

    /// Parse a one-letter format code.
    pub fn from_str(s: &str) -> (r: Option<DataType>)
        ensures
            r == DataType::spec_from_str(s@),
    {
        if str_eq(s, "b") {
            Some(DataType::BIT)
        } else if str_eq(s, "h") {
            Some(DataType::SWORD)
        } else if str_eq(s, "H") {
            Some(DataType::UWORD)
        } else if str_eq(s, "i") {
            Some(DataType::SDWORD)
        } else if str_eq(s, "I") {
            Some(DataType::UDWORD)
        } else if str_eq(s, "f") {
            Some(DataType::FLOAT)
        } else if str_eq(s, "d") {
            Some(DataType::DOUBLE)
        } else if str_eq(s, "q") {
            Some(DataType::SLWORD)
        } else if str_eq(s, "Q") {
            Some(DataType::ULWORD)
        } else {
            None
        }
    }

    /// The one-letter format code of this type.
    pub open spec fn spec_struct_code(&self) -> Seq<char> {
        match self {
            DataType::BIT => "b"@,
            DataType::SWORD => "h"@,
            DataType::UWORD => "H"@,
            DataType::SDWORD => "i"@,
            DataType::UDWORD => "I"@,
            DataType::FLOAT => "f"@,
            DataType::DOUBLE => "d"@,
            DataType::SLWORD => "q"@,
            DataType::ULWORD => "Q"@,
        }
    }

    /// The one-letter format code of this type.
    pub fn to_struct_type(&self) -> (r: &str)
        ensures
            r@ == self.spec_struct_code(),
    {
        match self {
            DataType::BIT => "b",
            DataType::SWORD => "h",
            DataType::UWORD => "H",
            DataType::SDWORD => "i",
            DataType::UDWORD => "I",
            DataType::FLOAT => "f",
            DataType::DOUBLE => "d",
            DataType::SLWORD => "q",
            DataType::ULWORD => "Q",
        }
    }
}

/// The device-code tables.
pub struct DeviceConstants;

/// The binary-mode device code and index base of a device class, gated on the
/// PLC series for the iQ-R-only classes.
pub open spec fn spec_binary_device_code(plc: Seq<char>, dev: Seq<char>) -> Result<
    (u8, u32),
    MelsecError,
> {
    if dev == "SM"@ {
        Ok((0x91u8, 10u32))
    } else if dev == "SD"@ {
        Ok((0xA9u8, 10u32))
    } else if dev == "X"@ {
        Ok((0x9Cu8, 16u32))
    } else if dev == "Y"@ {
        Ok((0x9Du8, 16u32))
    } else if dev == "M"@ {
        Ok((0x90u8, 10u32))
    } else if dev == "L"@ {
        Ok((0x92u8, 10u32))
    } else if dev == "F"@ {
        Ok((0x93u8, 10u32))
    } else if dev == "V"@ {
        Ok((0x94u8, 10u32))
    } else if dev == "B"@ {
        Ok((0xA0u8, 16u32))
    } else if dev == "D"@ {
        Ok((0xA8u8, 10u32))
    } else if dev == "W"@ {
        Ok((0xB4u8, 16u32))
    } else if dev == "TS"@ {
        Ok((0xC1u8, 10u32))
    } else if dev == "TC"@ {
        Ok((0xC0u8, 10u32))
    } else if dev == "TN"@ {
        Ok((0xC2u8, 10u32))
    } else if dev == "SS"@ {
        Ok((0xC7u8, 10u32))
    } else if dev == "SC"@ {
        Ok((0xC6u8, 10u32))
    } else if dev == "SN"@ {
        Ok((0xC8u8, 10u32))
    } else if dev == "CS"@ {
        Ok((0xC4u8, 10u32))
    } else if dev == "CC"@ {
        Ok((0xC3u8, 10u32))
    } else if dev == "CN"@ {
        Ok((0xC5u8, 10u32))
    } else if dev == "SB"@ {
        Ok((0xA1u8, 16u32))
    } else if dev == "SW"@ {
        Ok((0xB5u8, 16u32))
    } else if dev == "DX"@ {
        Ok((0xA2u8, 16u32))
    } else if dev == "DY"@ {
        Ok((0xA3u8, 16u32))
    } else if dev == "R"@ {
        Ok((0xAFu8, 10u32))
    } else if dev == "ZR"@ {
        Ok((0xB0u8, 16u32))
    } else if plc == "iQ-R"@ && dev == "LTS"@ {
        Ok((0x51u8, 10u32))
    } else if plc == "iQ-R"@ && dev == "LTC"@ {
        Ok((0x50u8, 10u32))
    } else if plc == "iQ-R"@ && dev == "LTN"@ {
        Ok((0x52u8, 10u32))
    } else if plc == "iQ-R"@ && dev == "LSTS"@ {
        Ok((0x59u8, 10u32))
    } else if plc == "iQ-R"@ && dev == "LSTC"@ {
        Ok((0x58u8, 10u32))
    } else if plc == "iQ-R"@ && dev == "LSTN"@ {
        Ok((0x5Au8, 10u32))
    } else if plc == "iQ-R"@ && dev == "LCS"@ {
        Ok((0x55u8, 10u32))
    } else if plc == "iQ-R"@ && dev == "LCC"@ {
        Ok((0x54u8, 10u32))
    } else if plc == "iQ-R"@ && dev == "LCN"@ {
        Ok((0x56u8, 10u32))
    } else if plc == "iQ-R"@ && dev == "LZ"@ {
        Ok((0x62u8, 10u32))
    } else if plc == "iQ-R"@ && dev == "RD"@ {
        Ok((0x2Cu8, 10u32))
    } else {
        Err(MelsecError::UnknownDeviceClass)
    }
}

impl DeviceConstants {
    pub const SM_DEVICE: u8 = 0x91;

    pub const SD_DEVICE: u8 = 0xA9;

    pub const X_DEVICE: u8 = 0x9C;

    pub const Y_DEVICE: u8 = 0x9D;

    pub const M_DEVICE: u8 = 0x90;

    pub const L_DEVICE: u8 = 0x92;

    pub const F_DEVICE: u8 = 0x93;

    pub const V_DEVICE: u8 = 0x94;

    pub const B_DEVICE: u8 = 0xA0;

    pub const D_DEVICE: u8 = 0xA8;

    pub const W_DEVICE: u8 = 0xB4;

    pub const TS_DEVICE: u8 = 0xC1;

    pub const TC_DEVICE: u8 = 0xC0;

    pub const TN_DEVICE: u8 = 0xC2;

    pub const SS_DEVICE: u8 = 0xC7;

    pub const SC_DEVICE: u8 = 0xC6;

    pub const SN_DEVICE: u8 = 0xC8;

    pub const CS_DEVICE: u8 = 0xC4;

    pub const CC_DEVICE: u8 = 0xC3;

    pub const CN_DEVICE: u8 = 0xC5;

    pub const SB_DEVICE: u8 = 0xA1;

    pub const SW_DEVICE: u8 = 0xB5;

    pub const DX_DEVICE: u8 = 0xA2;

    pub const DY_DEVICE: u8 = 0xA3;

    pub const R_DEVICE: u8 = 0xAF;

    pub const ZR_DEVICE: u8 = 0xB0;

    pub const LTS_DEVICE: u8 = 0x51;

    pub const LTC_DEVICE: u8 = 0x50;

    pub const LTN_DEVICE: u8 = 0x52;

    pub const LSTS_DEVICE: u8 = 0x59;

    pub const LSTC_DEVICE: u8 = 0x58;

    pub const LSTN_DEVICE: u8 = 0x5A;

    pub const LCS_DEVICE: u8 = 0x55;

    pub const LCC_DEVICE: u8 = 0x54;

    pub const LCN_DEVICE: u8 = 0x56;

    pub const LZ_DEVICE: u8 = 0x62;

    pub const RD_DEVICE: u8 = 0x2C;

    /// The binary-mode device code and index base for a device class.
    pub fn get_binary_device_code(plc_type: &str, device_name: &str) -> (r: Result<
        (u8, u32),
        MelsecError,
    >)
        ensures
            r == spec_binary_device_code(plc_type@, device_name@),
    {
        let iqr = str_eq(plc_type, "iQ-R");
        if str_eq(device_name, "SM") {
            Ok((DeviceConstants::SM_DEVICE, 10))
        } else if str_eq(device_name, "SD") {
            Ok((DeviceConstants::SD_DEVICE, 10))
        } else if str_eq(device_name, "X") {
            Ok((DeviceConstants::X_DEVICE, 16))
        } else if str_eq(device_name, "Y") {
            Ok((DeviceConstants::Y_DEVICE, 16))
        } else if str_eq(device_name, "M") {
            Ok((DeviceConstants::M_DEVICE, 10))
        } else if str_eq(device_name, "L") {
            Ok((DeviceConstants::L_DEVICE, 10))
        } else if str_eq(device_name, "F") {
            Ok((DeviceConstants::F_DEVICE, 10))
        } else if str_eq(device_name, "V") {
            Ok((DeviceConstants::V_DEVICE, 10))
        } else if str_eq(device_name, "B") {
            Ok((DeviceConstants::B_DEVICE, 16))
        } else if str_eq(device_name, "D") {
            Ok((DeviceConstants::D_DEVICE, 10))
        } else if str_eq(device_name, "W") {
            Ok((DeviceConstants::W_DEVICE, 16))
        } else if str_eq(device_name, "TS") {
            Ok((DeviceConstants::TS_DEVICE, 10))
        } else if str_eq(device_name, "TC") {
            Ok((DeviceConstants::TC_DEVICE, 10))
        } else if str_eq(device_name, "TN") {
            Ok((DeviceConstants::TN_DEVICE, 10))
        } else if str_eq(device_name, "SS") {
            Ok((DeviceConstants::SS_DEVICE, 10))
        } else if str_eq(device_name, "SC") {
            Ok((DeviceConstants::SC_DEVICE, 10))
        } else if str_eq(device_name, "SN") {
            Ok((DeviceConstants::SN_DEVICE, 10))
        } else if str_eq(device_name, "CS") {
            Ok((DeviceConstants::CS_DEVICE, 10))
        } else if str_eq(device_name, "CC") {
            Ok((DeviceConstants::CC_DEVICE, 10))
        } else if str_eq(device_name, "CN") {
            Ok((DeviceConstants::CN_DEVICE, 10))
        } else if str_eq(device_name, "SB") {
            Ok((DeviceConstants::SB_DEVICE, 16))
        } else if str_eq(device_name, "SW") {
            Ok((DeviceConstants::SW_DEVICE, 16))
        } else if str_eq(device_name, "DX") {
            Ok((DeviceConstants::DX_DEVICE, 16))
        } else if str_eq(device_name, "DY") {
            Ok((DeviceConstants::DY_DEVICE, 16))
        } else if str_eq(device_name, "R") {
            Ok((DeviceConstants::R_DEVICE, 10))
        } else if str_eq(device_name, "ZR") {
            Ok((DeviceConstants::ZR_DEVICE, 16))
        } else if iqr && str_eq(device_name, "LTS") {
            Ok((DeviceConstants::LTS_DEVICE, 10))
        } else if iqr && str_eq(device_name, "LTC") {
            Ok((DeviceConstants::LTC_DEVICE, 10))
        } else if iqr && str_eq(device_name, "LTN") {
            Ok((DeviceConstants::LTN_DEVICE, 10))
        } else if iqr && str_eq(device_name, "LSTS") {
            Ok((DeviceConstants::LSTS_DEVICE, 10))
        } else if iqr && str_eq(device_name, "LSTC") {
            Ok((DeviceConstants::LSTC_DEVICE, 10))
        } else if iqr && str_eq(device_name, "LSTN") {
            Ok((DeviceConstants::LSTN_DEVICE, 10))
        } else if iqr && str_eq(device_name, "LCS") {
            Ok((DeviceConstants::LCS_DEVICE, 10))
        } else if iqr && str_eq(device_name, "LCC") {
            Ok((DeviceConstants::LCC_DEVICE, 10))
        } else if iqr && str_eq(device_name, "LCN") {
            Ok((DeviceConstants::LCN_DEVICE, 10))
        } else if iqr && str_eq(device_name, "LZ") {
            Ok((DeviceConstants::LZ_DEVICE, 10))
        } else if iqr && str_eq(device_name, "RD") {
            Ok((DeviceConstants::RD_DEVICE, 10))
        } else {
            Err(MelsecError::UnknownDeviceClass)
        }
    }
}

/// The ASCII-mode device code (a '*'-padded class name) and index base of a
/// device class.  iQ-R pads to four characters, other series to two; the
/// structured-timer classes STS/STC/STN are renamed SS/SC/SN outside iQ-R.
pub open spec fn spec_ascii_device_code(plc: Seq<char>, dev: Seq<char>) -> Result<
    (Seq<char>, u32),
    MelsecError,
> {
    let w: nat = if plc == "iQ-R"@ { 4 } else { 2 };
    if dev == "SM"@ || dev == "SD"@ || dev == "X"@ || dev == "Y"@ || dev == "M"@ || dev == "L"@
        || dev == "F"@ || dev == "V"@ || dev == "B"@ || dev == "D"@ || dev == "W"@ || dev == "TS"@
        || dev == "TC"@ || dev == "TN"@ || dev == "CS"@ || dev == "CC"@ || dev == "CN"@ || dev
        == "SB"@ || dev == "SW"@ || dev == "DX"@ || dev == "DY"@ || dev == "R"@ || dev == "ZR"@ {
        Ok((spec_pad_star(dev, w), 16u32))
    } else if dev == "STS"@ {
        if plc == "iQ-R"@ {
            Ok((spec_pad_star("STS"@, w), 10u32))
        } else {
            Ok((spec_pad_star("SS"@, w), 10u32))
        }
    } else if dev == "STC"@ {
        if plc == "iQ-R"@ {
            Ok((spec_pad_star("STC"@, w), 10u32))
        } else {
            Ok((spec_pad_star("SC"@, w), 10u32))
        }
    } else if dev == "STN"@ {
        if plc == "iQ-R"@ {
            Ok((spec_pad_star("STN"@, w), 10u32))
        } else {
            Ok((spec_pad_star("SN"@, w), 10u32))
        }
    } else if plc == "iQ-R"@ && (dev == "LTS"@ || dev == "LTC"@ || dev == "LTN"@ || dev == "LSTS"@
        || dev == "LSTC"@ || dev == "LSTN"@ || dev == "LCS"@ || dev == "LCC"@ || dev == "LCN"@
        || dev == "LZ"@ || dev == "RD"@) {
        Ok((spec_pad_star(dev, w), 10u32))
    } else {
        Err(MelsecError::UnknownDeviceClass)
    }
}

/// The kind of memory behind a device class: "bit", "word" or "dword".
pub open spec fn spec_device_kind(plc: Seq<char>, dev: Seq<char>) -> Result<
    Seq<char>,
    MelsecError,
> {
    if dev == "SM"@ || dev == "X"@ || dev == "Y"@ || dev == "M"@ || dev == "L"@ || dev == "F"@
        || dev == "V"@ || dev == "B"@ || dev == "TS"@ || dev == "TC"@ || dev == "STS"@ || dev
        == "STC"@ || dev == "CS"@ || dev == "CC"@ || dev == "SB"@ || dev == "DX"@ || dev == "DY"@ {
        Ok("bit"@)
    } else if dev == "SD"@ || dev == "D"@ || dev == "W"@ || dev == "TN"@ || dev == "STN"@ || dev
        == "CN"@ || dev == "SW"@ || dev == "R"@ || dev == "ZR"@ {
        Ok("word"@)
    } else if dev == "LSTN"@ || dev == "LCN"@ || dev == "LZ"@ {
        if plc == "iQ-R"@ {
            Ok("dword"@)
        } else {
            Err(MelsecError::UnsupportedSeries)
        }
    } else if dev == "LST"@ || dev == "LTC"@ || dev == "LTN"@ || dev == "LSTS"@ || dev == "LCS"@
        || dev == "LCC"@ {
        if plc == "iQ-R"@ {
            Ok("bit"@)
        } else {
            Err(MelsecError::UnsupportedSeries)
        }
    } else if dev == "RD"@ {
        if plc == "iQ-R"@ {
            Ok("word"@)
        } else {
            Err(MelsecError::UnsupportedSeries)
        }
    } else {
        Err(MelsecError::UnknownDeviceClass)
    }
}

fn padded_ascii(name: &str, w: usize) -> (r: String)
    requires
        all_ascii(name@),
    ensures
        r@ == spec_pad_star(name@, w as nat),
        all_ascii(r@),
{
    let r = pad_star(name, w);
    proof {
        crate::text::lemma_pad_star_ascii(name@, w as nat);
    }
    r
}

impl DeviceConstants {
    pub const BIT_DEVICE: &'static str = "bit";

    pub const WORD_DEVICE: &'static str = "word";

    pub const DWORD_DEVICE: &'static str = "dword";

    /// The ASCII-mode padded device code and index base for a device class.
    pub fn get_ascii_device_code(plc_type: &str, device_name: &str) -> (r: Result<
        (String, u32),
        MelsecError,
    >)
        ensures
            r matches Ok((code, base)) ==> spec_ascii_device_code(plc_type@, device_name@)
                matches Ok(s) && code@ == s.0 && base == s.1 && all_ascii(code@),
            r matches Err(e) ==> spec_ascii_device_code(plc_type@, device_name@) == Err::<
                (Seq<char>, u32),
                MelsecError,
            >(e),
    {
        let iqr = str_eq(plc_type, "iQ-R");
        let w: usize = if iqr {
            4
        } else {
            2
        };
        if str_eq(device_name, "SM") || str_eq(device_name, "SD") || str_eq(device_name, "X")
            || str_eq(device_name, "Y") || str_eq(device_name, "M") || str_eq(device_name, "L")
            || str_eq(device_name, "F") || str_eq(device_name, "V") || str_eq(device_name, "B")
            || str_eq(device_name, "D") || str_eq(device_name, "W") || str_eq(device_name, "TS")
            || str_eq(device_name, "TC") || str_eq(device_name, "TN") || str_eq(device_name, "CS")
            || str_eq(device_name, "CC") || str_eq(device_name, "CN") || str_eq(device_name, "SB")
            || str_eq(device_name, "SW") || str_eq(device_name, "DX") || str_eq(device_name, "DY")
            || str_eq(device_name, "R") || str_eq(device_name, "ZR") {
            proof {
                assert(all_ascii(device_name@)) by {
                    reveal_strlit("SM");
                    reveal_strlit("SD");
                    reveal_strlit("X");
                    reveal_strlit("Y");
                    reveal_strlit("M");
                    reveal_strlit("L");
                    reveal_strlit("F");
                    reveal_strlit("V");
                    reveal_strlit("B");
                    reveal_strlit("D");
                    reveal_strlit("W");
                    reveal_strlit("TS");
                    reveal_strlit("TC");
                    reveal_strlit("TN");
                    reveal_strlit("CS");
                    reveal_strlit("CC");
                    reveal_strlit("CN");
                    reveal_strlit("SB");
                    reveal_strlit("SW");
                    reveal_strlit("DX");
                    reveal_strlit("DY");
                    reveal_strlit("R");
                    reveal_strlit("ZR");
                }
            }
            Ok((padded_ascii(device_name, w), 16))
        } else if str_eq(device_name, "STS") {
            if iqr {
                proof {
                    assert(all_ascii("STS"@)) by { reveal_strlit("STS"); }
                }
                Ok((padded_ascii("STS", w), 10))
            } else {
                proof {
                    assert(all_ascii("SS"@)) by { reveal_strlit("SS"); }
                }
                Ok((padded_ascii("SS", w), 10))
            }
        } else if str_eq(device_name, "STC") {
            if iqr {
                proof {
                    assert(all_ascii("STC"@)) by { reveal_strlit("STC"); }
                }
                Ok((padded_ascii("STC", w), 10))
            } else {
                proof {
                    assert(all_ascii("SC"@)) by { reveal_strlit("SC"); }
                }
                Ok((padded_ascii("SC", w), 10))
            }
        } else if str_eq(device_name, "STN") {
            if iqr {
                proof {
                    assert(all_ascii("STN"@)) by { reveal_strlit("STN"); }
                }
                Ok((padded_ascii("STN", w), 10))
            } else {
                proof {
                    assert(all_ascii("SN"@)) by { reveal_strlit("SN"); }
                }
                Ok((padded_ascii("SN", w), 10))
            }
        } else if iqr && (str_eq(device_name, "LTS") || str_eq(device_name, "LTC") || str_eq(
            device_name,
            "LTN",
        ) || str_eq(device_name, "LSTS") || str_eq(device_name, "LSTC") || str_eq(
            device_name,
            "LSTN",
        ) || str_eq(device_name, "LCS") || str_eq(device_name, "LCC") || str_eq(
            device_name,
            "LCN",
        ) || str_eq(device_name, "LZ") || str_eq(device_name, "RD")) {
            proof {
                assert(all_ascii(device_name@)) by {
                    reveal_strlit("LTS");
                    reveal_strlit("LTC");
                    reveal_strlit("LTN");
                    reveal_strlit("LSTS");
                    reveal_strlit("LSTC");
                    reveal_strlit("LSTN");
                    reveal_strlit("LCS");
                    reveal_strlit("LCC");
                    reveal_strlit("LCN");
                    reveal_strlit("LZ");
                    reveal_strlit("RD");
                }
            }
            Ok((padded_ascii(device_name, w), 10))
        } else {
            Err(MelsecError::UnknownDeviceClass)
        }
    }

    /// The kind of memory behind a device class: "bit", "word" or "dword".
    pub fn get_device_type(plc_type: &str, device_name: &str) -> (r: Result<
        &'static str,
        MelsecError,
    >)
        ensures
            r matches Ok(k) ==> spec_device_kind(plc_type@, device_name@) matches Ok(s) && k@ == s,
            r matches Err(e) ==> spec_device_kind(plc_type@, device_name@) == Err::<
                Seq<char>,
                MelsecError,
            >(e),
    {
        let iqr = str_eq(plc_type, "iQ-R");
        if str_eq(device_name, "SM") || str_eq(device_name, "X") || str_eq(device_name, "Y")
            || str_eq(device_name, "M") || str_eq(device_name, "L") || str_eq(device_name, "F")
            || str_eq(device_name, "V") || str_eq(device_name, "B") || str_eq(device_name, "TS")
            || str_eq(device_name, "TC") || str_eq(device_name, "STS") || str_eq(
            device_name,
            "STC",
        ) || str_eq(device_name, "CS") || str_eq(device_name, "CC") || str_eq(device_name, "SB")
            || str_eq(device_name, "DX") || str_eq(device_name, "DY") {
            Ok(DeviceConstants::BIT_DEVICE)
        } else if str_eq(device_name, "SD") || str_eq(device_name, "D") || str_eq(device_name, "W")
            || str_eq(device_name, "TN") || str_eq(device_name, "STN") || str_eq(
            device_name,
            "CN",
        ) || str_eq(device_name, "SW") || str_eq(device_name, "R") || str_eq(device_name, "ZR") {
            Ok(DeviceConstants::WORD_DEVICE)
        } else if str_eq(device_name, "LSTN") || str_eq(device_name, "LCN") || str_eq(
            device_name,
            "LZ",
        ) {
            if iqr {
                Ok(DeviceConstants::DWORD_DEVICE)
            } else {
                Err(MelsecError::UnsupportedSeries)
            }
        } else if str_eq(device_name, "LST") || str_eq(device_name, "LTC") || str_eq(
            device_name,
            "LTN",
        ) || str_eq(device_name, "LSTS") || str_eq(device_name, "LCS") || str_eq(
            device_name,
            "LCC",
        ) {
            if iqr {
                Ok(DeviceConstants::BIT_DEVICE)
            } else {
                Err(MelsecError::UnsupportedSeries)
            }
        } else if str_eq(device_name, "RD") {
            if iqr {
                Ok(DeviceConstants::WORD_DEVICE)
            } else {
                Err(MelsecError::UnsupportedSeries)
            }
        } else {
            Err(MelsecError::UnknownDeviceClass)
        }
    }
}

} // verus!
