//! Exception levels, the frame the vector trampolines save, and the decoding
//! of an exception syndrome into readable names.
use vstd::prelude::*;

verus! {

/// An AArch64 exception level.
#[derive(PartialEq, Eq, Structural, Clone, Copy, Debug)]
pub enum ExceptionLevel {
    El0,
    El1,
    El2,
    El3,
}

/// The level that a `CurrentEL` register value names: its bits `[3:2]`.
pub open spec fn level_of_current_el(raw: u64) -> ExceptionLevel {
    let n = (raw >> 2u64) & 3;
    if n == 0 {
        ExceptionLevel::El0
    } else if n == 1 {
        ExceptionLevel::El1
    } else if n == 2 {
        ExceptionLevel::El2
    } else {
        ExceptionLevel::El3
    }
}

/// The exception level named by a `CurrentEL` register value.
pub fn get_current_el(raw: u64) -> (r: ExceptionLevel)
    ensures
        r == level_of_current_el(raw),
{
    let n = (raw >> 2u64) & 3;
    if n == 0 {
        ExceptionLevel::El0
    } else if n == 1 {
        ExceptionLevel::El1
    } else if n == 2 {
        ExceptionLevel::El2
    } else {
        ExceptionLevel::El3
    }
}

/// The registers that a vector trampoline saves, in the order it stores
/// them.
#[derive(Clone, Copy, Debug)]
pub struct ExceptionFrame {
    /// A second copy of the fault address, which keeps the frame a multiple
    /// of 16 bytes.
    pub far_slot: u64,
    pub far: u64,
    pub pc: u64,
    pub cpsr: u64,
    pub esr: u64,
    pub x: [u64; 31],
}

/// The exception class of a syndrome: bits `[31:26]`.
pub open spec fn exception_class(esr: u64) -> u64 {
    (esr >> 26u64) & 0x3f
}

/// The fault status code of a syndrome: bits `[4:0]`.
pub open spec fn fault_status(esr: u64) -> u64 {
    esr & 0x1f
}

/// The name of the exception class of `esr`.
pub open spec fn exception_type_name(esr: u64) -> Seq<char> {
    let class = exception_class(esr);
    if class == 0x18 {
        "Configurable trap"@
    } else if class == 0x22 {
        "PC alignment exception"@
    } else if class == 0x25 {
        "Data abort"@
    } else if class == 0x26 {
        "Stack alignment exception"@
    } else if class == 0x2f {
        "Serror"@
    } else if class == 0x30 {
        "Debug exception"@
    } else {
        "Unknown exception"@
    }
}

/// The name of the fault status code of `esr`.
pub open spec fn instruction_fault_name(esr: u64) -> Seq<char> {
    let code = fault_status(esr);
    if code == 0x00 {
        "Address size fault in TTBR0 or TTBR1"@
    } else if code == 0x05 {
        "Translation fault, 1st level"@
    } else if code == 0x06 {
        "Translation fault, 2nd level"@
    } else if code == 0x07 {
        "Translation fault, 3rd level"@
    } else if code == 0x09 {
        "Access flag fault, 1st level"@
    } else if code == 0x0a {
        "Access flag fault, 2nd level"@
    } else if code == 0x0b {
        "Access flag fault, 3rd level"@
    } else if code == 0x0d {
        "Permission fault, 1st level"@
    } else if code == 0x0e {
        "Permission fault, 2nd level"@
    } else if code == 0x0f {
        "Permission fault, 3rd level"@
    } else if code == 0x10 {
        "Synchronous external abort"@
    } else if code == 0x18 {
        "Synchronous parity error on memory access"@
    } else if code == 0x15 {
        "Synchronous external abort on translation table walk, 1st level"@
    } else if code == 0x16 {
        "Synchronous external abort on translation table walk, 2nd level"@
    } else if code == 0x17 {
        "Synchronous external abort on translation table walk, 3rd level"@
    } else if code == 0x1d {
        "Synchronous parity error on memory access on translation table walk, 1st level"@
    } else if code == 0x1e {
        "Synchronous parity error on memory access on translation table walk, 2nd level"@
    } else if code == 0x1f {
        "Synchronous parity error on memory access on translation table walk, 3rd level"@
    } else {
        "Unknown instruction fault"@
    }
}

/// A readable name for the exception class of syndrome `esr`.
pub fn get_exception_type_elx(esr: u64) -> (r: &'static str)
    ensures
        r@ == exception_type_name(esr),
{
    let class = (esr >> 26u64) & 0x3f;
    if class == 0x18 {
        "Configurable trap"
    } else if class == 0x22 {
        "PC alignment exception"
    } else if class == 0x25 {
        "Data abort"
    } else if class == 0x26 {
        "Stack alignment exception"
    } else if class == 0x2f {
        "Serror"
    } else if class == 0x30 {
        "Debug exception"
    } else {
        "Unknown exception"
    }
}

/// A readable name for the fault status code of syndrome `esr`.
pub fn get_instruction_fault_name(esr: u64) -> (r: &'static str)
    ensures
        r@ == instruction_fault_name(esr),
{
    let code = esr & 0x1f;
    if code == 0x00 {
        "Address size fault in TTBR0 or TTBR1"
    } else if code == 0x05 {
        "Translation fault, 1st level"
    } else if code == 0x06 {
        "Translation fault, 2nd level"
    } else if code == 0x07 {
        "Translation fault, 3rd level"
    } else if code == 0x09 {
        "Access flag fault, 1st level"
    } else if code == 0x0a {
        "Access flag fault, 2nd level"
    } else if code == 0x0b {
        "Access flag fault, 3rd level"
    } else if code == 0x0d {
        "Permission fault, 1st level"
    } else if code == 0x0e {
        "Permission fault, 2nd level"
    } else if code == 0x0f {
        "Permission fault, 3rd level"
    } else if code == 0x10 {
        "Synchronous external abort"
    } else if code == 0x18 {
        "Synchronous parity error on memory access"
    } else if code == 0x15 {
        "Synchronous external abort on translation table walk, 1st level"
    } else if code == 0x16 {
        "Synchronous external abort on translation table walk, 2nd level"
    } else if code == 0x17 {
        "Synchronous external abort on translation table walk, 3rd level"
    } else if code == 0x1d {
        "Synchronous parity error on memory access on translation table walk, 1st level"
    } else if code == 0x1e {
        "Synchronous parity error on memory access on translation table walk, 2nd level"
    } else if code == 0x1f {
        "Synchronous parity error on memory access on translation table walk, 3rd level"
    } else {
        "Unknown instruction fault"
    }
}

} // verus!
