//! The firmware binding layer's decisions: the protocol-identifying GUID
//! and the checks applied to what a firmware call handed back.
//!
//! The calls themselves cross the firmware ABI outside this crate; their
//! status words and the nullness of returned interfaces come in here as
//! plain values, and the accept-or-fail decisions are made in one place.

use crate::error::{EfiStatus, Error};
use vstd::prelude::*;

verus! {

/// A 128-bit value identifying a requestable firmware protocol.
#[derive(Clone, Copy, PartialEq, Eq, Debug)]
pub struct EfiGuid {
    /// First 32 bits.
    pub data0: u32,
    /// Next 16 bits.
    pub data1: u16,
    /// Next 16 bits.
    pub data2: u16,
    /// Final 64 bits, byte by byte.
    pub data3: [u8; 8],
}

/// The GUID of the graphics output protocol, through which the firmware
/// reports the frame buffer.
pub fn graphics_output_protocol_guid() -> (g: EfiGuid)
    ensures
        g.data0 == 0x9042a9de,
        g.data1 == 0x23dc,
        g.data2 == 0x4a38,
        g.data3@ == seq![0x96u8, 0xfbu8, 0x7au8, 0xdeu8, 0xd0u8, 0x80u8, 0x51u8, 0x6au8],
{
    let g = EfiGuid {
        data0: 0x9042a9de,
        data1: 0x23dc,
        data2: 0x4a38,
        data3: [0x96, 0xfb, 0x7a, 0xde, 0xd0, 0x80, 0x51, 0x6a],
    };
    proof {
        assert(g.data3@ =~= seq![0x96u8, 0xfbu8, 0x7au8, 0xdeu8, 0xd0u8, 0x80u8, 0x51u8, 0x6au8]);
    }
    g
}

/// The decision at the end of the graphics-protocol lookup: only a
/// success status together with a non-null interface yields a protocol;
/// anything else means the protocol is absent.
pub fn check_protocol_lookup(status: EfiStatus, interface_is_null: bool) -> (r: Result<(), Error>)
    ensures
        r is Ok <==> (status.spec_is_success() && !interface_is_null),
        r is Err ==> r == Err::<(), Error>(Error::ProtocolNotFound),
{
    if status.is_success() && !interface_is_null {
        Ok(())
    } else {
        Err(Error::ProtocolNotFound)
    }
}

/// The decision after a firmware memory-map query: any non-success
/// status surfaces as a failure carrying that status.
pub fn check_firmware_status(status: EfiStatus) -> (r: Result<(), Error>)
    ensures
        r is Ok <==> status.spec_is_success(),
        r is Err ==> r == Err::<(), Error>(Error::FirmwareCallFailed(status)),
{
    if status.is_success() {
        Ok(())
    } else {
        Err(Error::FirmwareCallFailed(status))
    }
}

} // verus!
