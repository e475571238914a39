//! A supervisor library for a bhyve virtual machine: the declarative machine
//! description, PCI slot allocation, device models, the precondition and
//! recovery engine, and the decisions of the reboot loop.

pub mod slot;
pub mod text;
pub mod error;
pub mod numeric;
pub mod util;
pub mod assertion;
pub mod host;
pub mod vm;
pub mod conditions;
pub mod emulation;
pub mod decoding;
pub mod spec;
pub mod supervisor;
