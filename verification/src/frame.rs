//! The two transport-header variants of the MC protocol.  A 3E frame carries
//! a subheader only; a 4E frame adds a serial number and a reserved zero
//! field, and its responses sit two fields deeper.

use vstd::prelude::*;
use crate::err::MelsecError;
use crate::session::WireEncoding;

verus! {

/// The frame variant of a session, with its variant-specific fields.
#[derive(Debug, Clone)]
pub enum FrameVariant {
    ThreeE { subheader: u16 },
    FourE { subheader: u16, serial: u16 },
}

impl FrameVariant {
    /// The standard 3E variant.
    pub fn three_e() -> (r: FrameVariant)
        ensures
            r == (FrameVariant::ThreeE { subheader: 0x5000u16 }),
    {
        FrameVariant::ThreeE { subheader: 0x5000 }
    }

    /// The standard 4E variant, serial number zero.
    pub fn four_e() -> (r: FrameVariant)
        ensures
            r == (FrameVariant::FourE { subheader: 0x5400u16, serial: 0u16 }),
    {
        FrameVariant::FourE { subheader: 0x5400, serial: 0 }
    }

    /// The subheader constant of this variant.
    pub open spec fn spec_subheader(&self) -> u16 {
        match self {
            FrameVariant::ThreeE { subheader } => *subheader,
            FrameVariant::FourE { subheader, .. } => *subheader,
        }
    }

    /// The subheader constant of this variant.
    pub fn subheader(&self) -> (r: u16)
        ensures
            r == self.spec_subheader(),
    {
        match self {
            FrameVariant::ThreeE { subheader } => *subheader,
            FrameVariant::FourE { subheader, .. } => *subheader,
        }
    }

    /// The serial number: zero for a 3E frame, the stored one for a 4E frame.
    pub open spec fn spec_serial(&self) -> u16 {
        match self {
            FrameVariant::ThreeE { .. } => 0u16,
            FrameVariant::FourE { serial, .. } => *serial,
        }
    }

    /// The serial number: zero for a 3E frame, the stored one for a 4E frame.
    pub fn subheader_serial(&self) -> (r: u16)
        ensures
            r == self.spec_serial(),
    {
        match self {
            FrameVariant::ThreeE { .. } => 0,
            FrameVariant::FourE { serial, .. } => *serial,
        }
    }

    /// Set the serial number of a 4E frame.  Every `u16` is in range, so this
    /// always succeeds; on a 3E frame there is no serial and nothing changes.
    pub fn set_subheader_serial(&mut self, subheader_serial: u16) -> (r: Result<(), MelsecError>)
        ensures
            r is Ok,
            (*old(self)) is FourE ==> *final(self) == (FrameVariant::FourE {
                subheader: old(self).spec_subheader(),
                serial: subheader_serial,
            }),
            (*old(self)) is ThreeE ==> *final(self) == *old(self),
    {
        match self {
            FrameVariant::ThreeE { .. } => Ok(()),
            FrameVariant::FourE { subheader, serial } => {
                *serial = subheader_serial;
                Ok(())
            },
        }
    }

    /// Offset of the status field in a response buffer.
    pub open spec fn spec_status_index(&self, comm: WireEncoding) -> int {
        match self {
            FrameVariant::ThreeE { .. } => match comm {
                WireEncoding::Binary => 9,
                WireEncoding::Ascii => 18,
            },
            FrameVariant::FourE { .. } => match comm {
                WireEncoding::Binary => 13,
                WireEncoding::Ascii => 26,
            },
        }
    }

    /// Offset of the status field in a response buffer.
    pub fn get_response_status_index(&self, comm: WireEncoding) -> (r: usize)
        ensures
            r as int == self.spec_status_index(comm),
    {
        match self {
            FrameVariant::ThreeE { .. } => match comm {
                WireEncoding::Binary => 9,
                WireEncoding::Ascii => 18,
            },
            FrameVariant::FourE { .. } => match comm {
                WireEncoding::Binary => 13,
                WireEncoding::Ascii => 26,
            },
        }
    }

    /// Offset of the data field in a response buffer.
    pub open spec fn spec_data_index(&self, comm: WireEncoding) -> int {
        match self {
            FrameVariant::ThreeE { .. } => match comm {
                WireEncoding::Binary => 11,
                WireEncoding::Ascii => 22,
            },
            FrameVariant::FourE { .. } => match comm {
                WireEncoding::Binary => 15,
                WireEncoding::Ascii => 30,
            },
        }
    }

    /// Offset of the data field in a response buffer.
    pub fn get_response_data_index(&self, comm: WireEncoding) -> (r: usize)
        ensures
            r as int == self.spec_data_index(comm),
    {
        match self {
            FrameVariant::ThreeE { .. } => match comm {
                WireEncoding::Binary => 11,
                WireEncoding::Ascii => 22,
            },
            FrameVariant::FourE { .. } => match comm {
                WireEncoding::Binary => 15,
                WireEncoding::Ascii => 30,
            },
        }
    }
}

} // verus!
