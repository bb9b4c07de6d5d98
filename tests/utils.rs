use m1saka::utils::{align_down, align_up, baud_divisor, clean_bss, decimal_field, UART_CLOCK};

#[test]
fn alignment() {
    assert_eq!(align_down(0x1234, 0x1000), 0x1000);
    assert_eq!(align_down(0x2000, 0x1000), 0x2000);
    assert_eq!(align_up(0x1001, 0x1000), 0x2000);
    assert_eq!(align_up(0x2000, 0x1000), 0x2000);
    assert_eq!(align_up(0, 0x200_0000), 0);
    assert_eq!(align_down(u64::MAX, 1 << 63), 1 << 63);
}

#[test]
fn bss_is_zeroed() {
    let mut region = vec![0xAAu8; 37];
    clean_bss(&mut region);
    assert_eq!(region, vec![0u8; 37]);
    let mut empty: Vec<u8> = Vec::new();
    clean_bss(&mut empty);
    assert!(empty.is_empty());
}

#[test]
fn uart_divisor() {
    assert_eq!(baud_divisor(UART_CLOCK, 1_500_000), Some(0));
    assert_eq!(baud_divisor(UART_CLOCK, 115_200), Some(12));
    assert_eq!(baud_divisor(UART_CLOCK, 0), None);
    assert_eq!(baud_divisor(UART_CLOCK, 24_000_000), None);
}

#[test]
fn decimal_fields() {
    let mut five = vec![0u8; 9];
    five.push(b'5');
    assert_eq!(decimal_field(5, 10), five);
    assert_eq!(decimal_field(1_234_567_890, 10), b"1234567890".to_vec());
    assert_eq!(decimal_field(u32::MAX as u64, 10), b"4294967295".to_vec());
    assert_eq!(decimal_field(u64::MAX, 20), b"18446744073709551615".to_vec());
    let mut zero = vec![0u8; 19];
    zero.push(b'0');
    assert_eq!(decimal_field(0, 20), zero);
}
