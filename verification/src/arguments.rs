//! The target of a scan and the rules its arguments must meet.

use vstd::prelude::*;

verus! {

/// The largest port number.
pub const MAX: u16 = 65535;

/// The first port scanned when none is given.
pub const DEFAULT_START_PORT: u16 = 1;

/// The end of the scanned range when none is given.
pub const DEFAULT_END_PORT: u16 = MAX;

/// An IP address, held as the number its bytes spell in network order.
#[derive(Clone, Copy, Debug, PartialEq, Eq, Structural)]
pub enum Address {
    V4(u32),
    V6(u128),
}

/// The address scanned when none is given: 127.0.0.1.
pub fn ip_fallback() -> (address: Address)
    ensures
        address == Address::V4(0x7F00_0001),
{
    Address::V4(0x7F00_0001)
}

/// What to scan: the ports from `start_port` up to, not including, `end_port`
/// at `address`.
#[derive(Clone, Copy, Debug, PartialEq, Eq, Structural)]
pub struct Arguments {
    pub address: Address,
    pub start_port: u16,
    pub end_port: u16,
}

/// A start port is accepted when it is greater than 0.
pub fn start_port_guard(input: &u16) -> (accepted: bool)
    ensures
        accepted == (*input > 0),
{
    *input > 0
}

/// An end port is accepted when it is at most [`MAX`].
pub fn end_port_guard(input: &u16) -> (accepted: bool)
    ensures
        accepted == (*input <= MAX),
{
    *input <= MAX
}

impl Arguments {
    /// Both ports pass their guards.
    pub open spec fn valid(&self) -> bool {
        self.start_port > 0 && self.end_port <= MAX
    }

    /// Whether both ports pass their guards.
    pub fn is_valid(&self) -> (ok: bool)
        ensures
            ok == self.valid(),
    {
        start_port_guard(&self.start_port) && end_port_guard(&self.end_port)
    }
}

impl Default for Arguments {
    /// The loopback address and every port from 1 up to 65534.
    fn default() -> (args: Arguments)
        ensures
            args.address == Address::V4(0x7F00_0001),
            args.start_port == DEFAULT_START_PORT,
            args.end_port == DEFAULT_END_PORT,
    {
        Arguments {
            address: ip_fallback(),
            start_port: DEFAULT_START_PORT,
            end_port: DEFAULT_END_PORT,
        }
    }
}

} // verus!
