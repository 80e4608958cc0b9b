//! Packaging of compiled Move bytecode into deployable release blobs, and
//! preparation of on-chain bytecode for disassembly.
pub mod address;
pub mod codec;
pub mod disasm;
pub mod package;
pub mod targets;
