//! Errors of the specification compiler and its parsers.

use vstd::prelude::*;

verus! {

#[derive(Debug, Clone, PartialEq, Eq)]
pub enum FormatError {
    /// A storage unit suffix that is not one of K, M, G, T.
    InvalidUnit(String),
    /// A number that is missing or does not fit.
    InvalidValue(String),
    /// A PCI slot that is not `bus:slot:func`, `slot:func` or `slot`.
    InvalidPciSlotRepr(String),
    /// A component of a PCI slot above its bound.
    PciSlotValueOverflow { component: String, value: u8, max: u8 },
    LpcSlotNotSatisfy,
    HostbridgeSlotNotSatisfy,
    RunOutOfSlots,
    ProfileNotFound,
    /// An emulation declaration that does not describe a device.
    IncorrectEmulation(String),
}

} // verus!
