//! IP addresses as plain values.

use vstd::prelude::*;

verus! {

/// An IP address: the four octets of an IPv4 address, or the eight segments
/// of an IPv6 address.
#[derive(Clone, Copy, Debug, PartialEq, Eq, Structural)]
pub enum IpValue {
    V4(u8, u8, u8, u8),
    V6(u16, u16, u16, u16, u16, u16, u16, u16),
}

} // verus!
