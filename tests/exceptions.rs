use m1saka::exceptions::{get_current_el, get_exception_type_elx, get_instruction_fault_name, ExceptionLevel};

#[test]
fn exception_classes() {
    assert_eq!(get_exception_type_elx(0x25 << 26), "Data abort");
    assert_eq!(get_exception_type_elx(0x18 << 26), "Configurable trap");
    assert_eq!(get_exception_type_elx(0x22 << 26), "PC alignment exception");
    assert_eq!(get_exception_type_elx(0x26 << 26), "Stack alignment exception");
    assert_eq!(get_exception_type_elx(0x2f << 26 | 0x1ff), "Serror");
    assert_eq!(get_exception_type_elx(0x30 << 26), "Debug exception");
    assert_eq!(get_exception_type_elx(0x15 << 26), "Unknown exception");
    assert_eq!(get_exception_type_elx(1 << 32 | 0x25 << 26), "Data abort");
}

#[test]
fn fault_status_names() {
    assert_eq!(get_instruction_fault_name(0x0), "Address size fault in TTBR0 or TTBR1");
    assert_eq!(get_instruction_fault_name(0x25 << 26 | 0x06), "Translation fault, 2nd level");
    assert_eq!(get_instruction_fault_name(0x0b), "Access flag fault, 3rd level");
    assert_eq!(get_instruction_fault_name(0x0d), "Permission fault, 1st level");
    assert_eq!(get_instruction_fault_name(0x10), "Synchronous external abort");
    assert_eq!(get_instruction_fault_name(0x18), "Synchronous parity error on memory access");
    assert_eq!(
        get_instruction_fault_name(0x1f),
        "Synchronous parity error on memory access on translation table walk, 3rd level"
    );
    assert_eq!(get_instruction_fault_name(0x01), "Unknown instruction fault");
}

#[test]
fn current_el_decoding() {
    assert_eq!(get_current_el(0x0), ExceptionLevel::El0);
    assert_eq!(get_current_el(0x4), ExceptionLevel::El1);
    assert_eq!(get_current_el(0x8), ExceptionLevel::El2);
    assert_eq!(get_current_el(0xC), ExceptionLevel::El3);
}
