//! Verified logic of an early-boot stub for an AArch64 system-on-chip: the
//! framed serial protocol, self-relocation of the loaded image, stage-1
//! translation-table construction and exception syndrome decoding.
pub mod bytes;
pub mod exceptions;
pub mod mmu;
pub mod protocol;
pub mod reloc;
pub mod utils;
