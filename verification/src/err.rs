//! Error taxonomy: the library's own error kinds and the MELSEC status-code
//! diagnostics.

use vstd::prelude::*;
use vstd::string::*;
use crate::text::{spec_hex_pad, hex_pad_string, str_eq};

verus! {

/// An MC-protocol status code, kept as its `0x`-prefixed four-digit lower-case
/// hexadecimal rendering.
#[derive(Debug, Clone)]
pub struct MCError {
    error_code: String,
}

/// The errors this library reports.  Transport failures stay with the caller
/// that owns the socket.
#[derive(Debug, Clone)]
pub enum MelsecError {
    /// A device token with no class prefix or no parseable index.
    InvalidDeviceToken,
    /// A device class that no table maps, or one reserved to a series other
    /// than the session's.
    UnknownDeviceClass,
    /// A device class asked of a PLC series that does not carry it.
    UnsupportedSeries,
    /// A value width outside {2, 4, 8}; the enumerated data types all carry
    /// one of those widths, so nothing in this crate produces it.
    UnsupportedSize,
    /// An unset or unknown byte order; the enumerated orders leave nothing
    /// unset, so nothing in this crate produces it.
    UnsupportedEndianness,
    /// Malformed hexadecimal text, a truncated buffer, or bytes that are not
    /// valid UTF-8 where text is expected.
    DecodeError,
    /// A non-zero status code in a response.
    Protocol(MCError),
}

/// The `0x`-prefixed four-digit lower-case hexadecimal rendering of a status
/// code.
pub open spec fn spec_status_code_string(code: int) -> Seq<char> {
    seq!['0', 'x'] + spec_hex_pad(code as nat, 4, false)
}

/// The diagnostic text for a rendered status code.
pub open spec fn spec_description(s: Seq<char>) -> Seq<char> {
    if s == "0x0050"@ {
        "0x0050: When \"Communication Data Code\" is set to ASCII Code, ASCII code data that cannot be converted to binary were received."@
    } else if s == "0x0051"@ || s == "0x0052"@ || s == "0x0053"@ || s == "0x0054"@ {
        "0x0051-0x0054: The number of read or write points is outside the allowable range."@
    } else if s == "0x0055"@ {
        "0x0055: Although online change is disabled, the connected device requested the RUN-state CPU module for data writing."@
    } else if s == "0xc056"@ {
        "0xC056: The read or write request exceeds the maximum address."@
    } else if s == "0xc058"@ {
        "0xC058: The request data length after ASCII-to-binary conversion does not match the data size of the character area (a part of text data)."@
    } else if s == "0xc059"@ {
        "0xC059: The command and/or subcommand are specified incorrectly. The CPU module does not support the command and/or subcommand."@
    } else if s == "0xc05b"@ {
        "0xC05B: The CPU module cannot read data from or write data to the specified device."@
    } else if s == "0xc05c"@ {
        "0xC05C: The request data is incorrect. (e.g. reading or writing data in units of bits from or to a word device)"@
    } else if s == "0xc05d"@ {
        "0xC05D: No monitor registration."@
    } else if s == "0xc05f"@ {
        "0xC05F: The request cannot be executed to the CPU module."@
    } else if s == "0xc060"@ {
        "0xC060: The request data is incorrect. (ex. incorrect specification of data for bit devices)"@
    } else if s == "0xc061"@ {
        "0xC061: The request data length does not match the number of data in the character area (a part of text data)."@
    } else if s == "0xc06f"@ {
        "0xC06F: The CPU module received a request message in ASCII format when \"Communication Data Code is set to Binary Code, or received it in binary format when the setting is set to ASCII Code. (This error code is only registered to the error history, and no abnormal response is returned.)"@
    } else if s == "0xc070"@ {
        "0xC070: The device memory extension cannot be specified for the target station."@
    } else if s == "0xc0b5"@ {
        "0xC0B5: The CPU module cannot handle the data specified."@
    } else if s == "0xc200"@ {
        "0xC200: The remote password is incorrect."@
    } else if s == "0xc201"@ {
        "0xC201: The port used for communication is locked with the remote password. Or, because of the remote password lock status with \"Communication Data Code\" set to ASCII Code, the subcommand and later part cannot be converted to a binary code."@
    } else if s == "0xc204"@ {
        "0xC204: The connected device is different from the one that requested for unlock processing of the remote password."@
    } else {
        s + ": Unknown error code."@
    }
}

impl MCError {
    /// The rendered status code this error carries.
    pub closed spec fn code_view(&self) -> Seq<char> {
        self.error_code@
    }

    /// Wrap a raw status code.
    pub fn new(error_code: u16) -> (r: MCError)
        ensures
            r.code_view() == spec_status_code_string(error_code as int),
    {
        proof { reveal_strlit("0x"); }
        let mut s = "0x".to_owned();
        assert(s@ =~= seq!['0', 'x']);
        s.append(hex_pad_string(error_code as u32, 4, false).as_str());
        MCError { error_code: s }
    }

    /// The diagnostic text for this status code.
    pub fn description(&self) -> (r: String)
        ensures
            r@ == spec_description(self.code_view()),
    {
        if str_eq(self.error_code.as_str(), "0x0050") {
            "0x0050: When \"Communication Data Code\" is set to ASCII Code, ASCII code data that cannot be converted to binary were received.".to_owned()
        } else if str_eq(self.error_code.as_str(), "0x0051") || str_eq(
            self.error_code.as_str(),
            "0x0052",
        ) || str_eq(self.error_code.as_str(), "0x0053") || str_eq(
            self.error_code.as_str(),
            "0x0054",
        ) {
            "0x0051-0x0054: The number of read or write points is outside the allowable range.".to_owned()
        } else if str_eq(self.error_code.as_str(), "0x0055") {
            "0x0055: Although online change is disabled, the connected device requested the RUN-state CPU module for data writing.".to_owned()
        } else if str_eq(self.error_code.as_str(), "0xc056") {
            "0xC056: The read or write request exceeds the maximum address.".to_owned()
        } else if str_eq(self.error_code.as_str(), "0xc058") {
            "0xC058: The request data length after ASCII-to-binary conversion does not match the data size of the character area (a part of text data).".to_owned()
        } else if str_eq(self.error_code.as_str(), "0xc059") {
            "0xC059: The command and/or subcommand are specified incorrectly. The CPU module does not support the command and/or subcommand.".to_owned()
        } else if str_eq(self.error_code.as_str(), "0xc05b") {
            "0xC05B: The CPU module cannot read data from or write data to the specified device.".to_owned()
        } else if str_eq(self.error_code.as_str(), "0xc05c") {
            "0xC05C: The request data is incorrect. (e.g. reading or writing data in units of bits from or to a word device)".to_owned()
        } else if str_eq(self.error_code.as_str(), "0xc05d") {
            "0xC05D: No monitor registration.".to_owned()
        } else if str_eq(self.error_code.as_str(), "0xc05f") {
            "0xC05F: The request cannot be executed to the CPU module.".to_owned()
        } else if str_eq(self.error_code.as_str(), "0xc060") {
            "0xC060: The request data is incorrect. (ex. incorrect specification of data for bit devices)".to_owned()
        } else if str_eq(self.error_code.as_str(), "0xc061") {
            "0xC061: The request data length does not match the number of data in the character area (a part of text data).".to_owned()
        } else if str_eq(self.error_code.as_str(), "0xc06f") {
            "0xC06F: The CPU module received a request message in ASCII format when \"Communication Data Code is set to Binary Code, or received it in binary format when the setting is set to ASCII Code. (This error code is only registered to the error history, and no abnormal response is returned.)".to_owned()
        } else if str_eq(self.error_code.as_str(), "0xc070") {
            "0xC070: The device memory extension cannot be specified for the target station.".to_owned()
        } else if str_eq(self.error_code.as_str(), "0xc0b5") {
            "0xC0B5: The CPU module cannot handle the data specified.".to_owned()
        } else if str_eq(self.error_code.as_str(), "0xc200") {
            "0xC200: The remote password is incorrect.".to_owned()
        } else if str_eq(self.error_code.as_str(), "0xc201") {
            "0xC201: The port used for communication is locked with the remote password. Or, because of the remote password lock status with \"Communication Data Code\" set to ASCII Code, the subcommand and later part cannot be converted to a binary code.".to_owned()
        } else if str_eq(self.error_code.as_str(), "0xc204") {
            "0xC204: The connected device is different from the one that requested for unlock processing of the remote password.".to_owned()
        } else {
            let mut r = self.error_code.clone();
            r.append(": Unknown error code.");
            r
        }
    }

    /// A zero status code means success; any other code is a protocol error
    /// carrying its rendered form.
    pub fn from_status(status: u16) -> (r: Result<(), MCError>)
        ensures
            r is Ok <==> status == 0,
            r matches Err(e) ==> e.code_view() == spec_status_code_string(status as int),
    {
        if status == 0 {
            Ok(())
        } else {
            Err(MCError::new(status))
        }
    }
}

} // verus!
