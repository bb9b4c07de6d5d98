//! Self-relocation of the loaded image: the RELATIVE records of its dynamic
//! relocation tables are applied for the address the image was loaded at.
//!
//! The image is a byte slice; its byte `k` sits at address `base + k`. Every
//! offset the tables hold is relative to the start of the image.
use vstd::prelude::*;

use crate::bytes::{
    get_u32_le, get_u64_le, le_u64, lemma_le_u64_of_bytes, put_u64_le, splice, u32_from_le, u64_from_le,
};

verus! {

/// Tag that ends the dynamic array.
pub const DT_NULL: u64 = 0;

/// Tag of the offset of the table of relocations with addend.
pub const DT_RELA: u64 = 7;

/// Tag of the size of one relocation with addend.
pub const DT_RELAENT: u64 = 9;

/// Tag of the number of relocations with addend.
pub const DT_RELACOUNT: u64 = 0x6ffffff9;

/// Tag of the offset of the table of relocations without addend.
pub const DT_REL: u64 = 17;

/// Tag of the size of one relocation without addend.
pub const DT_RELENT: u64 = 19;

/// Tag of the number of relocations without addend.
pub const DT_RELCOUNT: u64 = 0x6ffffffa;

/// The only relocation type applied: the load base plus a constant.
pub const R_AARCH64_RELATIVE: u64 = 0x403;

/// Size of one entry of the dynamic array: tag and value.
pub const DYN_ENTRY_SIZE: u64 = 16;

/// Size of a relocation with addend: offset, info and addend.
pub const RELA_ENTRY_SIZE: u64 = 24;

/// Size of a relocation without addend: offset and info.
pub const REL_ENTRY_SIZE: u64 = 16;

/// Result: every relocation was applied.
pub const RELOC_OK: u32 = 0;

/// Result: a dynamic entry, a relocation or its target lies outside the image.
pub const RELOC_OUT_OF_IMAGE: u32 = 1;

/// Result: the dynamic array gives a relocation-with-addend size other than 24.
pub const RELOC_BAD_RELA_SIZE: u32 = 2;

/// Result: the dynamic array gives a relocation-without-addend size other than 16.
pub const RELOC_BAD_REL_SIZE: u32 = 3;

/// Result: a relocation has a type other than RELATIVE.
pub const RELOC_UNSUPPORTED_TYPE: u32 = 4;

/// What the dynamic array says of the two relocation tables.
#[derive(Clone, Copy)]
pub struct DynamicInfo {
    pub rela_offset: Option<u64>,
    pub rela_entry_size: u64,
    pub rela_count: u64,
    pub rel_offset: Option<u64>,
    pub rel_entry_size: u64,
    pub rel_count: u64,
}

/// Nothing found yet.
pub open spec fn no_dynamic_info() -> DynamicInfo {
    DynamicInfo {
        rela_offset: None,
        rela_entry_size: 0,
        rela_count: 0,
        rel_offset: None,
        rel_entry_size: 0,
        rel_count: 0,
    }
}

/// `acc` after the dynamic entry `(tag, val)`; unknown tags change nothing.
pub open spec fn with_dynamic_entry(acc: DynamicInfo, tag: u64, val: u64) -> DynamicInfo {
    if tag == DT_RELA {
        DynamicInfo { rela_offset: Some(val), ..acc }
    } else if tag == DT_RELAENT {
        DynamicInfo { rela_entry_size: val, ..acc }
    } else if tag == DT_RELACOUNT {
        DynamicInfo { rela_count: val, ..acc }
    } else if tag == DT_REL {
        DynamicInfo { rel_offset: Some(val), ..acc }
    } else if tag == DT_RELENT {
        DynamicInfo { rel_entry_size: val, ..acc }
    } else if tag == DT_RELCOUNT {
        DynamicInfo { rel_count: val, ..acc }
    } else {
        acc
    }
}

/// The 64-bit little-endian word at `p` in `img`.
pub open spec fn word_at(img: Seq<u8>, p: int) -> u64 {
    u64_from_le(img.subrange(p, p + 8))
}

/// The dynamic array of `img` read from position `p` on, after `acc`; `None`
/// when it runs out of the image before its `DT_NULL` entry.
pub open spec fn scan_dynamic(img: Seq<u8>, p: int, acc: DynamicInfo) -> Option<DynamicInfo>
    decreases img.len() - p,
{
    if p < 0 || p + DYN_ENTRY_SIZE > img.len() {
        None
    } else if word_at(img, p) == DT_NULL {
        Some(acc)
    } else {
        scan_dynamic(
            img,
            p + DYN_ENTRY_SIZE,
            with_dynamic_entry(acc, word_at(img, p), word_at(img, p + 8)),
        )
    }
}

/// Applies the relocations with addend `i..count` of the table at `table`:
/// the image after them, and the result code.
pub open spec fn rela_pass(img: Seq<u8>, base: u64, origin: int, table: int, i: nat, count: nat) -> (
    Seq<u8>,
    u32,
)
    decreases count - i,
{
    if i >= count {
        (img, RELOC_OK)
    } else {
        let p = table + RELA_ENTRY_SIZE * i;
        if p + RELA_ENTRY_SIZE > img.len() {
            (img, RELOC_OUT_OF_IMAGE)
        } else {
            let offset = word_at(img, p);
            let info = word_at(img, p + 8);
            let addend = word_at(img, p + 16);
            if info & 0xffff_ffff != R_AARCH64_RELATIVE {
                (img, RELOC_UNSUPPORTED_TYPE)
            } else if origin + offset + 8 > img.len() {
                (img, RELOC_OUT_OF_IMAGE)
            } else {
                rela_pass(
                    splice(
                        img,
                        origin + offset,
                        le_u64(vstd::wrapping::u64_specs::wrapping_add(base, addend)),
                    ),
                    base,
                    origin,
                    table,
                    i + 1,
                    count,
                )
            }
        }
    }
}

/// Applies the relocations without addend `i..count` of the table at
/// `table`: the image after them, and the result code.
pub open spec fn rel_pass(img: Seq<u8>, base: u64, origin: int, table: int, i: nat, count: nat) -> (
    Seq<u8>,
    u32,
)
    decreases count - i,
{
    if i >= count {
        (img, RELOC_OK)
    } else {
        let p = table + REL_ENTRY_SIZE * i;
        if p + REL_ENTRY_SIZE > img.len() {
            (img, RELOC_OUT_OF_IMAGE)
        } else {
            let offset = word_at(img, p);
            let info = word_at(img, p + 8);
            if info & 0xffff_ffff != R_AARCH64_RELATIVE {
                (img, RELOC_UNSUPPORTED_TYPE)
            } else if origin + offset + 8 > img.len() {
                (img, RELOC_OUT_OF_IMAGE)
            } else {
                rel_pass(
                    splice(
                        img,
                        origin + offset,
                        le_u64(vstd::wrapping::u64_specs::wrapping_add(word_at(img, origin + offset), base)),
                    ),
                    base,
                    origin,
                    table,
                    i + 1,
                    count,
                )
            }
        }
    }
}

/// Position of the dynamic array: the signed 32-bit offset stored right
/// after the entry instruction at `entry`, taken from the entry.
pub open spec fn dynamic_start(img: Seq<u8>, entry: int) -> int {
    entry + (u32_from_le(img.subrange(entry + 4, entry + 8)) as i32) as int
}

/// The image after relocation for load address `base`, its entry
/// instruction at `entry`, and the result code. Every offset the image holds
/// is taken from the entry.
pub open spec fn relocated(img: Seq<u8>, entry: int, base: u64) -> (Seq<u8>, u32) {
    if entry + 8 > img.len() {
        (img, RELOC_OUT_OF_IMAGE)
    } else {
        match scan_dynamic(img, dynamic_start(img, entry), no_dynamic_info()) {
            None => (img, RELOC_OUT_OF_IMAGE),
            Some(info) => {
                let first = match info.rela_offset {
                    None => (img, RELOC_OK),
                    Some(table) => if info.rela_entry_size != RELA_ENTRY_SIZE {
                        (img, RELOC_BAD_RELA_SIZE)
                    } else {
                        rela_pass(img, base, entry, entry + table, 0, info.rela_count as nat)
                    },
                };
                if first.1 != RELOC_OK {
                    first
                } else {
                    match info.rel_offset {
                        None => first,
                        Some(table) => if info.rel_entry_size != REL_ENTRY_SIZE {
                            (first.0, RELOC_BAD_REL_SIZE)
                        } else {
                            rel_pass(first.0, base, entry, entry + table, 0, info.rel_count as nat)
                        },
                    }
                }
            },
        }
    }
}

fn read_dynamic(image: &[u8], start: i128) -> (r: Option<DynamicInfo>)
    ensures
        r == scan_dynamic(image@, start as int, no_dynamic_info()),
{
    if start < 0 {
        return None;
    }
    let ulen: usize = image.len();
    let len: u128 = ulen as u128;
    let mut p: u128 = start as u128;
    let mut acc = DynamicInfo {
        rela_offset: None,
        rela_entry_size: 0,
        rela_count: 0,
        rel_offset: None,
        rel_entry_size: 0,
        rel_count: 0,
    };
    loop
        invariant
            len == image@.len(),
            len <= usize::MAX,
            scan_dynamic(image@, p as int, acc) == scan_dynamic(
                image@,
                start as int,
                no_dynamic_info(),
            ),
        decreases len - p,
    {
        if p > len || len - p < DYN_ENTRY_SIZE as u128 {
            return None;
        }
        let tag = get_u64_le(image, p as usize);
        let val = get_u64_le(image, (p + 8) as usize);
        if tag == DT_NULL {
            return Some(acc);
        }
        if tag == DT_RELA {
            acc.rela_offset = Some(val);
        } else if tag == DT_RELAENT {
            acc.rela_entry_size = val;
        } else if tag == DT_RELACOUNT {
            acc.rela_count = val;
        } else if tag == DT_REL {
            acc.rel_offset = Some(val);
        } else if tag == DT_RELENT {
            acc.rel_entry_size = val;
        } else if tag == DT_RELCOUNT {
            acc.rel_count = val;
        }
        p = p + DYN_ENTRY_SIZE as u128;
    }
}

fn apply_rela(image: &mut [u8], base: u64, origin: usize, table: u64, count: u64) -> (r: u32)
    ensures
        (final(image)@, r) == rela_pass(
            old(image)@,
            base,
            origin as int,
            origin + table,
            0,
            count as nat,
        ),
{
    let ulen: usize = image.len();
    let len: u128 = ulen as u128;
    let mut i: u64 = 0;
    let mut p: u128 = origin as u128 + table as u128;
    while i < count
        invariant
            i <= count,
            p == origin + table + RELA_ENTRY_SIZE * i,
            len == image@.len(),
            len <= usize::MAX,
            rela_pass(image@, base, origin as int, origin + table, i as nat, count as nat)
                == rela_pass(old(image)@, base, origin as int, origin + table, 0, count as nat),
        decreases count - i,
    {
        if p > len || len - p < RELA_ENTRY_SIZE as u128 {
            return RELOC_OUT_OF_IMAGE;
        }
        let offset = get_u64_le(image, p as usize);
        let info = get_u64_le(image, (p + 8) as usize);
        let addend = get_u64_le(image, (p + 16) as usize);
        if info & 0xffff_ffff != R_AARCH64_RELATIVE {
            return RELOC_UNSUPPORTED_TYPE;
        }
        let target: u128 = origin as u128 + offset as u128;
        if target > len || len - target < 8 {
            return RELOC_OUT_OF_IMAGE;
        }
        put_u64_le(image, target as usize, base.wrapping_add(addend));
        i = i + 1;
        p = p + RELA_ENTRY_SIZE as u128;
    }
    RELOC_OK
}

fn apply_rel(image: &mut [u8], base: u64, origin: usize, table: u64, count: u64) -> (r: u32)
    ensures
        (final(image)@, r) == rel_pass(
            old(image)@,
            base,
            origin as int,
            origin + table,
            0,
            count as nat,
        ),
{
    let ulen: usize = image.len();
    let len: u128 = ulen as u128;
    let mut i: u64 = 0;
    let mut p: u128 = origin as u128 + table as u128;
    while i < count
        invariant
            i <= count,
            p == origin + table + REL_ENTRY_SIZE * i,
            len == image@.len(),
            len <= usize::MAX,
            rel_pass(image@, base, origin as int, origin + table, i as nat, count as nat)
                == rel_pass(old(image)@, base, origin as int, origin + table, 0, count as nat),
        decreases count - i,
    {
        if p > len || len - p < REL_ENTRY_SIZE as u128 {
            return RELOC_OUT_OF_IMAGE;
        }
        let offset = get_u64_le(image, p as usize);
        let info = get_u64_le(image, (p + 8) as usize);
        if info & 0xffff_ffff != R_AARCH64_RELATIVE {
            return RELOC_UNSUPPORTED_TYPE;
        }
        let target: u128 = origin as u128 + offset as u128;
        if target > len || len - target < 8 {
            return RELOC_OUT_OF_IMAGE;
        }
        let word = get_u64_le(image, target as usize);
        put_u64_le(image, target as usize, word.wrapping_add(base));
        i = i + 1;
        p = p + REL_ENTRY_SIZE as u128;
    }
    RELOC_OK
}

/// Applies the RELATIVE relocations of `image`, whose entry instruction at
/// `image[entry]` was loaded at address `base`; every offset the image holds
/// is taken from the entry, the dynamic array's possibly negative. Returns 0
/// on success; 1 when the dynamic array, a relocation or its target lies
/// outside `image`; 2 or 3 when the dynamic array gives a wrong entry size
/// for the table with or without addend; 4 on a relocation of another type.
/// Relocations applied before an error stay applied.
pub fn relocate_self(image: &mut [u8], entry: usize, base: u64) -> (r: u32)
    ensures
        (final(image)@, r) == relocated(old(image)@, entry as int, base),
{
    if image.len() < 8 || entry > image.len() - 8 {
        return RELOC_OUT_OF_IMAGE;
    }
    let offset = get_u32_le(image, entry + 4) as i32;
    let start: i128 = entry as i128 + offset as i128;
    let info = match read_dynamic(image, start) {
        None => return RELOC_OUT_OF_IMAGE,
        Some(info) => info,
    };
    if let Some(table) = info.rela_offset {
        if info.rela_entry_size != RELA_ENTRY_SIZE {
            return RELOC_BAD_RELA_SIZE;
        }
        let code = apply_rela(image, base, entry, table, info.rela_count);
        if code != RELOC_OK {
            return code;
        }
    }
    if let Some(table) = info.rel_offset {
        if info.rel_entry_size != REL_ENTRY_SIZE {
            return RELOC_BAD_REL_SIZE;
        }
        return apply_rel(image, base, entry, table, info.rel_count);
    }
    RELOC_OK
}

/// Whether the relocations with addend `i..count` of the table at `table`
/// write byte `q`, applied one after another as `rela_pass` applies them.
pub open spec fn rela_written(img: Seq<u8>, base: u64, origin: int, table: int, i: nat, count: nat, q: int) -> bool
    decreases count - i,
{
    if i >= count {
        false
    } else {
        let p = table + RELA_ENTRY_SIZE * i;
        if p + RELA_ENTRY_SIZE > img.len() {
            false
        } else {
            let offset = word_at(img, p);
            let info = word_at(img, p + 8);
            let addend = word_at(img, p + 16);
            if info & 0xffff_ffff != R_AARCH64_RELATIVE {
                false
            } else if origin + offset + 8 > img.len() {
                false
            } else {
                (origin + offset <= q < origin + offset + 8) || rela_written(
                    splice(
                        img,
                        origin + offset,
                        le_u64(vstd::wrapping::u64_specs::wrapping_add(base, addend)),
                    ),
                    base,
                    origin,
                    table,
                    i + 1,
                    count,
                    q,
                )
            }
        }
    }
}

/// Whether byte `q` belongs to an entry of the dynamic array that the scan
/// from position `p` reads.
pub open spec fn in_dynamic(img: Seq<u8>, p: int, q: int) -> bool
    decreases img.len() - p,
{
    if p < 0 || p + DYN_ENTRY_SIZE > img.len() {
        false
    } else {
        (p <= q < p + DYN_ENTRY_SIZE) || (word_at(img, p) != DT_NULL && in_dynamic(
            img,
            p + DYN_ENTRY_SIZE,
            q,
        ))
    }
}

/// Whether relocation of `img` for load address 0 writes none of the bytes
/// that relocation reads: the offset word after the entry instruction, the
/// dynamic array, and the table of relocations with addend.
pub open spec fn zero_base_writes_clear_of_tables(img: Seq<u8>, entry: int) -> bool {
    entry + 8 <= img.len() ==> match scan_dynamic(
        img,
        dynamic_start(img, entry),
        no_dynamic_info(),
    ) {
        Some(info) => match info.rela_offset {
            Some(table) => info.rela_entry_size == RELA_ENTRY_SIZE ==> forall|q: int|
                #[trigger] rela_written(img, 0, entry, entry + table, 0, info.rela_count as nat, q)
                    ==> !(entry + 4 <= q < entry + 8) && !in_dynamic(img, dynamic_start(img, entry), q)
                    && !(entry + table <= q < entry + table + RELA_ENTRY_SIZE * info.rela_count),
            None => true,
        },
        None => true,
    }
}

proof fn lemma_rela_frame(z: Seq<u8>, base: u64, origin: int, table: int, i: nat, count: nat)
    requires
        0 <= origin,
    ensures
        rela_pass(z, base, origin, table, i, count).0.len() == z.len(),
        forall|q: int|
            0 <= q < z.len() && !#[trigger] rela_written(z, base, origin, table, i, count, q) ==> rela_pass(
                z,
                base,
                origin,
                table,
                i,
                count,
            ).0[q] == z[q],
    decreases count - i,
{
    if i < count {
        let p = table + RELA_ENTRY_SIZE * i;
        if p + RELA_ENTRY_SIZE <= z.len() {
            let offset = word_at(z, p);
            let info = word_at(z, p + 8);
            let addend = word_at(z, p + 16);
            if info & 0xffff_ffff == R_AARCH64_RELATIVE && origin + offset + 8 <= z.len() {
                let z2 = splice(
                    z,
                    origin + offset,
                    le_u64(vstd::wrapping::u64_specs::wrapping_add(base, addend)),
                );
                lemma_rela_frame(z2, base, origin, table, i + 1, count);
                assert forall|q: int|
                    0 <= q < z.len() && !#[trigger] rela_written(
                        z,
                        base,
                        origin,
                        table,
                        i,
                        count,
                        q,
                    ) implies rela_pass(z, base, origin, table, i, count).0[q] == z[q] by {
                    assert(!rela_written(z2, base, origin, table, i + 1, count, q));
                    assert(z2[q] == z[q]);
                }
            }
        }
    }
}

proof fn lemma_rela_congruence(z1: Seq<u8>, z2: Seq<u8>, base: u64, origin: int, table: int, i: nat, count: nat)
    requires
        z1.len() == z2.len(),
        0 <= table,
        0 <= origin,
        forall|q: int|
            0 <= q < z1.len() && table <= q < table + RELA_ENTRY_SIZE * count ==> !#[trigger] rela_written(
                z1,
                base,
                origin,
                table,
                i,
                count,
                q,
            ),
        forall|q: int|
            0 <= q < z1.len() && !#[trigger] rela_written(z1, base, origin, table, i, count, q) ==> z1[q]
                == z2[q],
    ensures
        rela_pass(z1, base, origin, table, i, count) == rela_pass(z2, base, origin, table, i, count),
    decreases count - i,
{
    let p = table + RELA_ENTRY_SIZE * i;
    if i >= count || p + RELA_ENTRY_SIZE > z1.len() {
        assert forall|q: int| 0 <= q < z1.len() implies z1[q] == z2[q] by {
            assert(!rela_written(z1, base, origin, table, i, count, q));
        }
        assert(z1 =~= z2);
    } else {
        assert(0 <= p);
        assert forall|q: int| p <= q < p + RELA_ENTRY_SIZE implies z1[q] == z2[q] by {
            assert(table <= q < table + RELA_ENTRY_SIZE * count) by (nonlinear_arith)
                requires
                    p == table + 24 * i,
                    p <= q < p + 24,
                    i < count,
            ;
            assert(!rela_written(z1, base, origin, table, i, count, q));
        }
        assert(z1.subrange(p, p + 8) =~= z2.subrange(p, p + 8));
        assert(z1.subrange(p + 8, p + 16) =~= z2.subrange(p + 8, p + 16));
        assert(z1.subrange(p + 16, p + 24) =~= z2.subrange(p + 16, p + 24));
        let offset = word_at(z1, p);
        let info = word_at(z1, p + 8);
        let addend = word_at(z1, p + 16);
        if info & 0xffff_ffff != R_AARCH64_RELATIVE || origin + offset + 8 > z1.len() {
            assert forall|q: int| 0 <= q < z1.len() implies z1[q] == z2[q] by {
                assert(!rela_written(z1, base, origin, table, i, count, q));
            }
            assert(z1 =~= z2);
        } else {
            let v = le_u64(vstd::wrapping::u64_specs::wrapping_add(base, addend));
            let y1 = splice(z1, origin + offset, v);
            let y2 = splice(z2, origin + offset, v);
            assert forall|q: int|
                0 <= q < y1.len() && !#[trigger] rela_written(
                    y1,
                    base,
                    origin,
                    table,
                    i + 1,
                    count,
                    q,
                ) implies y1[q] == y2[q] by {
                if !(origin + offset <= q < origin + offset + 8) {
                    assert(!rela_written(z1, base, origin, table, i, count, q));
                }
            }
            assert forall|q: int|
                0 <= q < y1.len() && table <= q < table + RELA_ENTRY_SIZE * count implies !#[trigger] rela_written(
                y1,
                base,
                origin,
                table,
                i + 1,
                count,
                q,
            ) by {
                assert(!rela_written(z1, base, origin, table, i, count, q));
            }
            lemma_rela_congruence(y1, y2, base, origin, table, i + 1, count);
        }
    }
}

proof fn lemma_rel_zero_base(z: Seq<u8>, origin: int, table: int, i: nat, count: nat)
    requires
        0 <= origin,
    ensures
        rel_pass(z, 0, origin, table, i, count).0 == z,
    decreases count - i,
{
    if i < count {
        let p = table + REL_ENTRY_SIZE * i;
        if p + REL_ENTRY_SIZE <= z.len() {
            let offset = word_at(z, p);
            let info = word_at(z, p + 8);
            if info & 0xffff_ffff == R_AARCH64_RELATIVE && origin + offset + 8 <= z.len() {
                let w = word_at(z, origin + offset);
                assert(vstd::wrapping::u64_specs::wrapping_add(w, 0) == w);
                lemma_le_u64_of_bytes(z.subrange(origin + offset, origin + offset + 8));
                assert(splice(z, origin + offset, le_u64(w)) =~= z);
                lemma_rel_zero_base(z, origin, table, i + 1, count);
            }
        }
    }
}

proof fn lemma_scan_congruence(z1: Seq<u8>, z2: Seq<u8>, p: int, acc: DynamicInfo)
    requires
        z1.len() == z2.len(),
        forall|q: int| 0 <= q < z1.len() && #[trigger] in_dynamic(z1, p, q) ==> z1[q] == z2[q],
    ensures
        scan_dynamic(z1, p, acc) == scan_dynamic(z2, p, acc),
    decreases z1.len() - p,
{
    if p >= 0 && p + DYN_ENTRY_SIZE <= z1.len() {
        assert forall|q: int| p <= q < p + DYN_ENTRY_SIZE implies z1[q] == z2[q] by {
            assert(in_dynamic(z1, p, q));
        }
        assert(z1.subrange(p, p + 8) =~= z2.subrange(p, p + 8));
        assert(z1.subrange(p + 8, p + 16) =~= z2.subrange(p + 8, p + 16));
        if word_at(z1, p) != DT_NULL {
            assert forall|q: int|
                0 <= q < z1.len() && #[trigger] in_dynamic(z1, p + DYN_ENTRY_SIZE, q) implies z1[q]
                == z2[q] by {
                assert(in_dynamic(z1, p, q));
            }
            lemma_scan_congruence(
                z1,
                z2,
                p + DYN_ENTRY_SIZE,
                with_dynamic_entry(acc, word_at(z1, p), word_at(z1, p + 8)),
            );
        }
    }
}

/// Relocating for load address 0 a second time changes nothing: the image
/// and the result code are those of the first time. This holds wherever no
/// relocation with addend writes into the bytes that relocation reads.
pub proof fn lemma_relocation_idempotent_at_zero(img: Seq<u8>, entry: int)
    requires
        0 <= entry,
        zero_base_writes_clear_of_tables(img, entry),
    ensures
        relocated(relocated(img, entry, 0).0, entry, 0) == relocated(img, entry, 0),
{
    if entry + 8 <= img.len() {
        let start = dynamic_start(img, entry);
        match scan_dynamic(img, start, no_dynamic_info()) {
            None => {},
            Some(info) => {
                match info.rela_offset {
                    None => {
                        if let Some(t) = info.rel_offset {
                            lemma_rel_zero_base(img, entry, entry + t, 0, info.rel_count as nat);
                        }
                    },
                    Some(table) => {
                        if info.rela_entry_size == RELA_ENTRY_SIZE {
                            let cnt = info.rela_count as nat;
                            let pos = entry + table;
                            let first = rela_pass(img, 0, entry, pos, 0, cnt);
                            let a = first.0;
                            lemma_rela_frame(img, 0, entry, pos, 0, cnt);
                            if let Some(t) = info.rel_offset {
                                lemma_rel_zero_base(a, entry, entry + t, 0, info.rel_count as nat);
                            }
                            assert(relocated(img, entry, 0).0 == a);
                            assert forall|q: int| entry + 4 <= q < entry + 8 implies a[q] == img[q] by {
                                if rela_written(img, 0, entry, pos, 0, cnt, q) {
                                }
                            }
                            assert(a.subrange(entry + 4, entry + 8) =~= img.subrange(entry + 4, entry + 8));
                            assert(dynamic_start(a, entry) == start);
                            assert forall|q: int|
                                0 <= q < img.len() && #[trigger] in_dynamic(img, start, q) implies img[q]
                                == a[q] by {
                                if rela_written(img, 0, entry, pos, 0, cnt, q) {
                                }
                            }
                            lemma_scan_congruence(img, a, start, no_dynamic_info());
                            assert forall|q: int|
                                0 <= q < img.len() && pos <= q < pos + RELA_ENTRY_SIZE
                                    * cnt implies !#[trigger] rela_written(
                                img,
                                0,
                                entry,
                                pos,
                                0,
                                cnt,
                                q,
                            ) by {
                                if rela_written(img, 0, entry, pos, 0, cnt, q) {
                                }
                            }
                            lemma_rela_congruence(img, a, 0, entry, pos, 0, cnt);
                        }
                    },
                }
            },
        }
    }
}

} // verus!
