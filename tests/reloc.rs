use m1saka::reloc::{relocate_self, DT_NULL, DT_REL, DT_RELA, DT_RELACOUNT, DT_RELAENT, DT_RELCOUNT, DT_RELENT};

fn put(image: &mut [u8], at: usize, v: u64) {
    image[at..at + 8].copy_from_slice(&v.to_le_bytes());
}

fn get(image: &[u8], at: usize) -> u64 {
    u64::from_le_bytes(image[at..at + 8].try_into().unwrap())
}

/// An image whose dynamic array sits at 0x10 and holds `tags`.
fn image_with(tags: &[(u64, u64)]) -> Vec<u8> {
    let mut image = vec![0u8; 0x200];
    image[4..8].copy_from_slice(&0x10u32.to_le_bytes());
    let mut at = 0x10;
    for (tag, val) in tags {
        put(&mut image, at, *tag);
        put(&mut image, at + 8, *val);
        at += 16;
    }
    put(&mut image, at, DT_NULL);
    image
}

fn rela_image() -> Vec<u8> {
    let mut image = image_with(&[(DT_RELA, 0x80), (DT_RELAENT, 24), (DT_RELACOUNT, 1)]);
    put(&mut image, 0x80, 0x100);
    put(&mut image, 0x88, 0x403);
    put(&mut image, 0x90, 0x40);
    image
}

#[test]
fn rela_relative_patch() {
    let mut image = rela_image();
    assert_eq!(relocate_self(&mut image, 0, 0x1000), 0);
    assert_eq!(&image[0x100..0x108], &0x1040u64.to_le_bytes());
}

#[test]
fn rel_relative_patch_adds_base() {
    let mut image = image_with(&[(DT_REL, 0x80), (DT_RELENT, 16), (DT_RELCOUNT, 2)]);
    put(&mut image, 0x80, 0x100);
    put(&mut image, 0x88, 0x403);
    put(&mut image, 0x90, 0x108);
    put(&mut image, 0x98, 0x403);
    put(&mut image, 0x100, 0x20);
    put(&mut image, 0x108, 0x30);
    assert_eq!(relocate_self(&mut image, 0, 0x5000), 0);
    assert_eq!(get(&image, 0x100), 0x5020);
    assert_eq!(get(&image, 0x108), 0x5030);
}

#[test]
fn relocation_with_zero_base_is_idempotent() {
    let mut once = rela_image();
    put(&mut once, 0x100, 0xDEAD);
    let code = relocate_self(&mut once, 0, 0);
    let mut twice = once.clone();
    assert_eq!(relocate_self(&mut twice, 0, 0), code);
    assert_eq!(once, twice);
    assert_eq!(get(&once, 0x100), 0x40);
}

#[test]
fn wrong_rela_entry_size() {
    let mut image = image_with(&[(DT_RELA, 0x80), (DT_RELAENT, 16), (DT_RELACOUNT, 1)]);
    assert_eq!(relocate_self(&mut image, 0, 0x1000), 2);
}

#[test]
fn wrong_rel_entry_size() {
    let mut image = image_with(&[(DT_REL, 0x80), (DT_RELENT, 24), (DT_RELCOUNT, 1)]);
    assert_eq!(relocate_self(&mut image, 0, 0x1000), 3);
}

#[test]
fn unsupported_relocation_type() {
    let mut image = rela_image();
    put(&mut image, 0x88, 0x101);
    let before = image.clone();
    assert_eq!(relocate_self(&mut image, 0, 0x1000), 4);
    assert_eq!(image, before);
}

#[test]
fn relocation_type_uses_low_32_bits_of_info() {
    let mut image = rela_image();
    put(&mut image, 0x88, 0x7_0000_0403);
    assert_eq!(relocate_self(&mut image, 0, 0x2000), 0);
    assert_eq!(get(&image, 0x100), 0x2040);
}

#[test]
fn relocation_target_outside_image() {
    let mut image = rela_image();
    put(&mut image, 0x80, 0x1FC);
    assert_eq!(relocate_self(&mut image, 0, 0x1000), 1);
}

#[test]
fn dynamic_array_without_end() {
    let mut image = vec![0xFFu8; 0x40];
    image[4..8].copy_from_slice(&0x10u32.to_le_bytes());
    assert_eq!(relocate_self(&mut image, 0, 0x1000), 1);
    let mut short = vec![0u8; 6];
    assert_eq!(relocate_self(&mut short, 0, 0x1000), 1);
}

#[test]
fn image_without_relocations() {
    let mut image = image_with(&[(0x1234, 5)]);
    let before = image.clone();
    assert_eq!(relocate_self(&mut image, 0, 0x1000), 0);
    assert_eq!(image, before);
}

#[test]
fn dynamic_array_before_the_entry_point() {
    let entry = 0x100;
    let mut image = vec![0u8; 0x300];
    let back = (0x10i32 - entry as i32) as u32;
    image[entry + 4..entry + 8].copy_from_slice(&back.to_le_bytes());
    let tags = [(DT_RELA, 0x80u64), (DT_RELAENT, 24), (DT_RELACOUNT, 1)];
    let mut at = 0x10;
    for (tag, val) in tags {
        put(&mut image, at, tag);
        put(&mut image, at + 8, val);
        at += 16;
    }
    put(&mut image, at, DT_NULL);
    put(&mut image, entry + 0x80, 0x100);
    put(&mut image, entry + 0x88, 0x403);
    put(&mut image, entry + 0x90, 0x40);
    assert_eq!(relocate_self(&mut image, entry, 0x1000), 0);
    assert_eq!(get(&image, entry + 0x100), 0x1040);
}

#[test]
fn entry_too_close_to_the_end() {
    let mut image = rela_image();
    let len = image.len();
    assert_eq!(relocate_self(&mut image, len - 7, 0x1000), 1);
}
