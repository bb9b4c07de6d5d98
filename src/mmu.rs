//! Stage-1 translation tables with a 16 KiB granule: a root table of two
//! entries, two level-1 tables, and level-2 tables taken from a reserved pool
//! whose entries map 32 MiB blocks.
//!
//! The tables are built here as values; each table has the physical address
//! it will be placed at, and every table descriptor points at such an
//! address. Translation is specified as the walk that the hardware makes
//! through those descriptors.
use vstd::prelude::*;

use crate::exceptions::ExceptionLevel;

verus! {

/// Entries in a level-1 or level-2 table.
pub const ENTRIES_PER_TABLE: u64 = 2048;

/// Bytes a table occupies, and the alignment of its address.
pub const TABLE_SIZE: u64 = 0x4000;

/// Bytes mapped by a level-2 block entry: 32 MiB.
pub const L2_BLOCK_SIZE: u64 = 0x200_0000;

/// Size of the translated input address space: 48 bits.
pub const ADDRESS_SPACE: u64 = 0x1_0000_0000_0000;

/// Level-1 entries over both level-1 tables.
pub const L1_SLOTS: u64 = 4096;

/// Level-2 blocks in the address space.
pub const BLOCKS: u64 = 0x80_0000;

/// Descriptor type bits of a block entry.
pub const PTE_TYPE_BLOCK: u64 = 0b01;

/// Descriptor type bits of a table entry.
pub const PTE_TYPE_TABLE: u64 = 0b11;

/// Access flag: set on every installed entry.
pub const PTE_FLAG_ACCESS: u64 = 0x400;

/// Read-only access permission.
pub const PTE_AP_RO: u64 = 0x80;

/// Privileged execute-never.
pub const PTE_PXN: u64 = 0x20_0000_0000_0000;

/// Unprivileged execute-never.
pub const PTE_UXN: u64 = 0x40_0000_0000_0000;

/// Every permission bit a block entry may carry.
pub const PERMISSION_MASK: u64 = PTE_AP_RO | PTE_PXN | PTE_UXN;

/// Bits `[47:14]`: the address of the next table in a table entry.
pub const TABLE_ADDRESS_MASK: u64 = 0x0000_FFFF_FFFF_C000;

/// Bits `[47:25]`: the output address of a level-2 block entry.
pub const BLOCK_ADDRESS_MASK: u64 = 0x0000_FFFF_FE00_0000;

/// Memory-attribute index of normal write-back memory.
pub const ATTR_NORMAL: u64 = 0;

/// Memory-attribute index of Device-nGnRnE memory.
pub const ATTR_DEVICE_NGNRNE: u64 = 1;

/// Memory-attribute index of Device-nGnRE memory.
pub const ATTR_DEVICE_NGNRE: u64 = 2;

/// The memory type of a mapping, by its slot in the attribute register.
#[derive(PartialEq, Eq, Structural, Clone, Copy, Debug)]
pub enum MemoryAttribute {
    Normal,
    DeviceNGnRnE,
    DeviceNGnRE,
}

/// The access a mapping allows.
#[derive(PartialEq, Eq, Structural, Clone, Copy, Debug)]
pub enum Permission {
    /// Read and write, never executed.
    ReadWrite,
    /// Read only, never executed.
    ReadOnly,
    /// Read, write and execute at the current level.
    ReadWriteExecute,
}

/// The attribute-register slot of memory type `a`.
pub open spec fn attr_index(a: MemoryAttribute) -> u64 {
    match a {
        MemoryAttribute::Normal => ATTR_NORMAL,
        MemoryAttribute::DeviceNGnRnE => ATTR_DEVICE_NGNRNE,
        MemoryAttribute::DeviceNGnRE => ATTR_DEVICE_NGNRE,
    }
}

/// The block-entry bits of access `p`.
pub open spec fn permission_bits(p: Permission) -> u64 {
    match p {
        Permission::ReadWrite => PTE_PXN | PTE_UXN,
        Permission::ReadOnly => PTE_AP_RO | PTE_PXN | PTE_UXN,
        Permission::ReadWriteExecute => 0,
    }
}

impl MemoryAttribute {
    /// The attribute-register slot of this memory type.
    pub fn index(self) -> (r: u64)
        ensures
            r == attr_index(self),
    {
        match self {
            MemoryAttribute::Normal => ATTR_NORMAL,
            MemoryAttribute::DeviceNGnRnE => ATTR_DEVICE_NGNRNE,
            MemoryAttribute::DeviceNGnRE => ATTR_DEVICE_NGNRE,
        }
    }
}

impl Permission {
    /// The descriptor bits of this permission.
    pub fn bits(self) -> (r: u64)
        ensures
            r == permission_bits(self),
    {
        match self {
            Permission::ReadWrite => PTE_PXN | PTE_UXN,
            Permission::ReadOnly => PTE_AP_RO | PTE_PXN | PTE_UXN,
            Permission::ReadWriteExecute => 0,
        }
    }
}

/// A level-2 block entry mapping the block at `pa`.
pub open spec fn block_descriptor(pa: u64, attr: u64, perm: u64) -> u64 {
    PTE_TYPE_BLOCK | pa | PTE_FLAG_ACCESS | ((attr & 7) << 2u64) | perm
}

/// A table entry pointing at the table at `addr`.
pub open spec fn table_descriptor(addr: u64) -> u64 {
    PTE_TYPE_TABLE | addr | PTE_FLAG_ACCESS
}

/// The block entry that maps the block at `pa`.
pub fn create_block_page_table_entry(pa: u64, attr: u64, perm: u64) -> (r: u64)
    ensures
        r == block_descriptor(pa, attr, perm),
{
    PTE_TYPE_BLOCK | pa | PTE_FLAG_ACCESS | ((attr & 7) << 2u64) | perm
}

/// The table entry that points at the table at `addr`.
pub fn create_table_page_table_entry(addr: u64) -> (r: u64)
    ensures
        r == table_descriptor(addr),
{
    PTE_TYPE_TABLE | addr | PTE_FLAG_ACCESS
}

/// Whether a table can be placed at `addr`: 16 KiB aligned, inside the
/// 48-bit physical address space.
pub open spec fn valid_table_address(addr: u64) -> bool {
    addr % TABLE_SIZE == 0 && addr < ADDRESS_SPACE
}

/// What a translation resolves to.
#[derive(PartialEq, Eq, Structural, Clone, Copy, Debug)]
pub struct Mapping {
    /// The output address.
    pub pa: u64,
    /// The memory-attribute slot.
    pub attr: u64,
    /// The permission bits.
    pub perm: u64,
}

/// Why a mapping was refused. A refused mapping changes nothing.
#[derive(PartialEq, Eq, Structural, Clone, Copy, Debug)]
pub enum MapError {
    /// An address or the size is not a multiple of 32 MiB.
    Misaligned,
    /// The range runs past the 48-bit address space.
    OutOfRange,
    /// The pool holds too few level-2 tables for the range.
    PoolExhausted,
    /// A table address is misaligned, out of range or given twice.
    BadTableAddress,
    /// The pool holds more tables than there are level-1 entries.
    PoolTooLarge,
}

/// The first index below `n` at which `addrs` holds `a`.
pub open spec fn find_address(addrs: Seq<u64>, a: u64, n: int) -> Option<int>
    decreases n,
{
    if n <= 0 {
        None
    } else {
        match find_address(addrs, a, n - 1) {
            Some(k) => Some(k),
            None => if addrs[n - 1] == a {
                Some(n - 1)
            } else {
                None
            },
        }
    }
}

/// The first index below `n` at which `s` holds `a`, in exec code.
fn find_address_exec(s: &[u64], a: u64, n: usize) -> (r: Option<usize>)
    requires
        n <= s@.len(),
    ensures
        match r {
            Some(k) => find_address(s@, a, n as int) == Some(k as int),
            None => find_address(s@, a, n as int) is None,
        },
{
    let mut i: usize = 0;
    while i < n
        invariant
            i <= n <= s@.len(),
            find_address(s@, a, i as int) is None,
        decreases n - i,
    {
        if s[i] == a {
            proof {
                lemma_find_address_extends(s@, a, (i + 1) as int, n as int);
            }
            return Some(i);
        }
        i = i + 1;
    }
    None
}

proof fn lemma_find_address_extends(addrs: Seq<u64>, a: u64, m: int, n: int)
    requires
        0 < m <= n,
        find_address(addrs, a, m) == Some(m - 1),
    ensures
        find_address(addrs, a, n) == Some(m - 1),
    decreases n - m,
{
    if n > m {
        lemma_find_address_extends(addrs, a, m, n - 1);
    }
}

proof fn lemma_find_address_distinct(addrs: Seq<u64>, k: int, n: int)
    requires
        0 <= k < n <= addrs.len(),
        forall|i: int, j: int| 0 <= i < j < addrs.len() ==> addrs[i] != addrs[j],
    ensures
        find_address(addrs, addrs[k], n) == Some(k),
    decreases n,
{
    if n - 1 > k {
        lemma_find_address_distinct(addrs, k, n - 1);
    } else {
        lemma_find_address_absent(addrs, addrs[k], k);
    }
}

proof fn lemma_find_address_absent(addrs: Seq<u64>, a: u64, n: int)
    requires
        0 <= n <= addrs.len(),
        forall|i: int| 0 <= i < n ==> addrs[i] != a,
    ensures
        find_address(addrs, a, n) is None,
    decreases n,
{
    if n > 0 {
        lemma_find_address_absent(addrs, a, n - 1);
    }
}

proof fn lemma_table_descriptor(addr: u64)
    requires
        valid_table_address(addr),
    ensures
        table_descriptor(addr) & 3 == 3,
        table_descriptor(addr) & TABLE_ADDRESS_MASK == addr,
        table_descriptor(addr) != 0,
{
    assert(addr & 0x3fff == 0 && addr >> 48u64 == 0) by (bit_vector)
        requires
            addr % 0x4000 == 0,
            addr < 0x1_0000_0000_0000,
    ;
    assert((3u64 | addr | 0x400u64) & 3 == 3 && (3u64 | addr | 0x400u64) & 0x0000_FFFF_FFFF_C000u64
        == addr && (3u64 | addr | 0x400u64) != 0) by (bit_vector)
        requires
            addr & 0x3fff == 0,
            addr >> 48u64 == 0,
    ;
}

/// The level-2 entry that the hardware walk for 32 MiB block `n` reaches,
/// if it reaches one, over the contents of the tables: the root table
/// `root`, the level-1 tables `l1` placed at `l1_addrs`, and the level-2
/// tables `l2` placed at the first `used` addresses of `pool`. The walk
/// follows the root entry to the level-1 table at the address it holds, then
/// the level-1 entry to the level-2 table at the address it holds.
pub open spec fn walk_level2(
    root: Seq<u64>,
    l1_addrs: Seq<u64>,
    l1: Seq<u64>,
    pool: Seq<u64>,
    used: int,
    l2: Seq<u64>,
    n: int,
) -> Option<u64> {
    let e0 = root[n / 0x40_0000];
    if e0 & 3 != PTE_TYPE_TABLE {
        None
    } else {
        match find_address(l1_addrs, e0 & TABLE_ADDRESS_MASK, 2) {
            None => None,
            Some(j) => {
                let e1 = l1[j * 2048 + (n / 2048) % 2048];
                if e1 & 3 != PTE_TYPE_TABLE {
                    None
                } else {
                    match find_address(pool, e1 & TABLE_ADDRESS_MASK, used) {
                        None => None,
                        Some(k) => Some(l2[k * 2048 + n % 2048]),
                    }
                }
            },
        }
    }
}

/// Whether `e` is a level-2 block entry the hardware uses: block type bits
/// and the access flag set.
pub open spec fn is_valid_block(e: u64) -> bool {
    e & 3 == PTE_TYPE_BLOCK && e & PTE_FLAG_ACCESS != 0
}

/// The block entry that the walk for block `n` finds, if the entry it
/// reaches is a valid block.
pub open spec fn walk_block(
    root: Seq<u64>,
    l1_addrs: Seq<u64>,
    l1: Seq<u64>,
    pool: Seq<u64>,
    used: int,
    l2: Seq<u64>,
    n: int,
) -> Option<u64> {
    match walk_level2(root, l1_addrs, l1, pool, used, l2, n) {
        Some(e) => if is_valid_block(e) {
            Some(e)
        } else {
            None
        },
        None => None,
    }
}

/// What the lower-half address `va` translates to through these tables: the
/// block's output address plus the offset in the block, its attribute slot
/// and its permission bits.
pub open spec fn walk(
    root: Seq<u64>,
    l1_addrs: Seq<u64>,
    l1: Seq<u64>,
    pool: Seq<u64>,
    used: int,
    l2: Seq<u64>,
    va: u64,
) -> Option<Mapping> {
    if va >= ADDRESS_SPACE {
        None
    } else {
        match walk_block(root, l1_addrs, l1, pool, used, l2, va as int / L2_BLOCK_SIZE as int) {
            Some(e) => Some(
                Mapping {
                    pa: ((e & BLOCK_ADDRESS_MASK) + va % L2_BLOCK_SIZE) as u64,
                    attr: (e >> 2u64) & 7,
                    perm: e & PERMISSION_MASK,
                },
            ),
            None => None,
        }
    }
}

/// Stage-1 translation tables for the lower half of the address space.
pub struct PageTables {
    root: [u64; 2],
    level1: Vec<u64>,
    level1_addresses: [u64; 2],
    level2: Vec<u64>,
    pool: Vec<u64>,
    used: usize,
    slot_table: Vec<usize>,
}

impl PageTables {
    /// The addresses of all tables: the two level-1 tables, then the pool.
    pub closed spec fn addresses(self) -> Seq<u64> {
        self.level1_addresses@ + self.pool@
    }

    /// The tables' internal consistency.
    pub closed spec fn wf(self) -> bool {
        &&& self.level1@.len() == L1_SLOTS
        &&& self.slot_table@.len() == L1_SLOTS
        &&& self.used <= self.pool@.len() <= L1_SLOTS
        &&& self.level2@.len() == self.used * ENTRIES_PER_TABLE
        &&& forall|i: int| 0 <= i < self.addresses().len() ==> valid_table_address(
            #[trigger] self.addresses()[i],
        )
        &&& forall|i: int, j: int|
            0 <= i < j < self.addresses().len() ==> self.addresses()[i] != self.addresses()[j]
        &&& self.root@[0] == table_descriptor(self.level1_addresses@[0])
        &&& self.root@[1] == table_descriptor(self.level1_addresses@[1])
        &&& forall|s: int|
            0 <= s < L1_SLOTS ==> #[trigger] self.level1@[s] == 0 || (self.slot_table@[s]
                < self.used && self.level1@[s] == table_descriptor(
                self.pool@[self.slot_table@[s] as int],
            ))
        &&& forall|s: int, t: int|
            0 <= s < L1_SLOTS && 0 <= t < L1_SLOTS && s != t && #[trigger] self.level1@[s] != 0
                && #[trigger] self.level1@[t] != 0 ==> self.slot_table@[s] != self.slot_table@[t]
        &&& forall|i: int|
            0 <= i < self.level2@.len() ==> #[trigger] self.level2@[i] == 0 || is_valid_block(
                self.level2@[i],
            )
    }

    /// The level-2 entry that the walk for block `n` reaches, if any.
    pub closed spec fn level2_entry(self, n: int) -> Option<u64> {
        walk_level2(
            self.root@,
            self.level1_addresses@,
            self.level1@,
            self.pool@,
            self.used as int,
            self.level2@,
            n,
        )
    }

    /// The block entry that maps block `n`, if any.
    pub closed spec fn block_entry(self, n: int) -> Option<u64> {
        walk_block(
            self.root@,
            self.level1_addresses@,
            self.level1@,
            self.pool@,
            self.used as int,
            self.level2@,
            n,
        )
    }

    /// What the lower-half address `va` translates to.
    pub closed spec fn translate(self, va: u64) -> Option<Mapping> {
        walk(
            self.root@,
            self.level1_addresses@,
            self.level1@,
            self.pool@,
            self.used as int,
            self.level2@,
            va,
        )
    }

    /// Whether no level-1 entry holds a table yet.
    pub closed spec fn level1_empty(self) -> bool {
        forall|s: int| 0 <= s < L1_SLOTS ==> self.level1@[s] == 0
    }

    /// Level-2 tables still free in the pool.
    pub closed spec fn free_tables(self) -> nat {
        (self.pool@.len() - self.used) as nat
    }

    /// Tables with nothing mapped, over the level-1 tables at `level1_addresses`
    /// and the level-2 tables at the addresses in `pool`. The addresses must
    /// be 16 KiB aligned, below 2^48 and distinct, and the pool no larger
    /// than the 4096 level-1 entries.
    pub fn new(level1_addresses: [u64; 2], pool: Vec<u64>) -> (r: Result<PageTables, MapError>)
        ensures
            match r {
                Ok(t) => {
                    &&& t.wf()
                    &&& t.level1_table_addresses() == level1_addresses@
                    &&& t.pool_addresses() == pool@
                    &&& t.level1_empty()
                    &&& forall|va: u64| #[trigger] t.translate(va) is None
                    &&& t.free_tables() == pool@.len()
                },
                Err(e) => {
                    ||| e == MapError::PoolTooLarge && pool@.len() > L1_SLOTS
                    ||| e == MapError::BadTableAddress && pool@.len() <= L1_SLOTS && !(
                    valid_addresses(level1_addresses@ + pool@))
                },
            },
            r is Ok <==> pool@.len() <= L1_SLOTS && valid_addresses(level1_addresses@ + pool@),
    {
        if pool.len() > 4096 {
            return Err(MapError::PoolTooLarge);
        }
        let mut all: Vec<u64> = Vec::new();
        all.push(level1_addresses[0]);
        all.push(level1_addresses[1]);
        let mut i: usize = 0;
        while i < pool.len()
            invariant
                i <= pool@.len(),
                all@ == level1_addresses@ + pool@.subrange(0, i as int),
            decreases pool@.len() - i,
        {
            all.push(pool[i]);
            i = i + 1;
            assert(all@ =~= level1_addresses@ + pool@.subrange(0, i as int));
        }
        assert(pool@.subrange(0, i as int) =~= pool@);
        if !check_addresses(&all) {
            return Err(MapError::BadTableAddress);
        }
        let mut level1: Vec<u64> = Vec::new();
        let mut slot_table: Vec<usize> = Vec::new();
        let mut s: usize = 0;
        while s < 4096
            invariant
                s <= 4096,
                level1@.len() == s,
                slot_table@.len() == s,
                forall|t: int| 0 <= t < s ==> level1@[t] == 0,
            decreases 4096 - s,
        {
            level1.push(0);
            slot_table.push(0);
            s = s + 1;
        }
        let root = [
            create_table_page_table_entry(level1_addresses[0]),
            create_table_page_table_entry(level1_addresses[1]),
        ];
        let t = PageTables {
            root,
            level1,
            level1_addresses,
            level2: Vec::new(),
            pool,
            used: 0,
            slot_table,
        };
        assert(t.addresses() == all@);
        assert forall|va: u64| #[trigger] t.translate(va) is None by {
            t.lemma_unmapped_when_level1_empty(va);
        }
        Ok(t)
    }

    proof fn lemma_unmapped_when_level1_empty(self, va: u64)
        requires
            self.wf(),
            forall|s: int| 0 <= s < L1_SLOTS ==> self.level1@[s] == 0,
        ensures
            self.translate(va) is None,
    {
        if va < ADDRESS_SPACE {
            let n = va as int / L2_BLOCK_SIZE as int;
            self.lemma_root_walk(n);
            assert(0u64 & 3 == 0) by (bit_vector);
            assert(self.level1@[n / 2048] == 0);
        }
    }

    /// The root entry for block `n` leads to level-1 table `n / 2^22`.
    proof fn lemma_root_walk(self, n: int)
        requires
            self.wf(),
            0 <= n < BLOCKS,
        ensures
            self.root@[n / 0x40_0000] & 3 == 3,
            find_address(self.level1_addresses@, self.root@[n / 0x40_0000] & TABLE_ADDRESS_MASK, 2)
                == Some(n / 0x40_0000),
            (n / 0x40_0000) * 2048 + (n / 2048) % 2048 == n / 2048,
    {
        let j = n / 0x40_0000;
        assert(self.addresses()[j] == self.level1_addresses@[j]);
        lemma_table_descriptor(self.level1_addresses@[j]);
        assert forall|a: int, b: int| 0 <= a < b < 2 implies self.level1_addresses@[a]
            != self.level1_addresses@[b] by {
            assert(self.addresses()[a] == self.level1_addresses@[a]);
            assert(self.addresses()[b] == self.level1_addresses@[b]);
        }
        lemma_find_address_distinct(self.level1_addresses@, j, 2);
    }
}

/// Whether the table addresses `s` are each valid and all distinct.
pub open spec fn valid_addresses(s: Seq<u64>) -> bool {
    &&& forall|i: int| 0 <= i < s.len() ==> valid_table_address(#[trigger] s[i])
    &&& forall|i: int, j: int| 0 <= i < j < s.len() ==> s[i] != s[j]
}

fn check_addresses(s: &Vec<u64>) -> (r: bool)
    ensures
        r == valid_addresses(s@),
{
    let mut i: usize = 0;
    while i < s.len()
        invariant
            i <= s@.len(),
            valid_addresses(s@.subrange(0, i as int)),
        decreases s@.len() - i,
    {
        let a = s[i];
        if a % TABLE_SIZE != 0 || a >= ADDRESS_SPACE {
            assert(!valid_table_address(s@[i as int]));
            return false;
        }
        let mut j: usize = 0;
        while j < i
            invariant
                j <= i < s@.len(),
                a == s@[i as int],
                forall|t: int| 0 <= t < j ==> s@[t] != s@[i as int],
            decreases i - j,
        {
            if s[j] == a {
                assert(!valid_addresses(s@)) by {
                    assert(s@[j as int] == s@[i as int]);
                }
                return false;
            }
            j = j + 1;
        }
        i = i + 1;
        assert(s@.subrange(0, i as int) =~= s@.subrange(0, i - 1).push(a));
    }
    assert(s@.subrange(0, i as int) =~= s@);
    true
}

/// Level-1 entries in `l1[lo..hi]` that hold no table yet.
pub open spec fn missing_slots(l1: Seq<u64>, lo: int, hi: int) -> nat
    decreases hi - lo,
{
    if lo >= hi {
        0
    } else {
        (if l1[lo] == 0 {
            1nat
        } else {
            0nat
        }) + missing_slots(l1, lo + 1, hi)
    }
}

proof fn lemma_missing_slots_frame(a: Seq<u64>, b: Seq<u64>, lo: int, hi: int)
    requires
        forall|i: int| lo <= i < hi ==> a[i] == b[i],
    ensures
        missing_slots(a, lo, hi) == missing_slots(b, lo, hi),
    decreases hi - lo,
{
    if lo < hi {
        lemma_missing_slots_frame(a, b, lo + 1, hi);
    }
}

proof fn lemma_block_descriptor(pa: u64, attr: u64, perm: u64)
    requires
        pa % L2_BLOCK_SIZE == 0,
        pa < ADDRESS_SPACE,
        attr < 8,
        perm == 0 || perm == PTE_PXN | PTE_UXN || perm == PTE_AP_RO | PTE_PXN | PTE_UXN,
    ensures
        block_descriptor(pa, attr, perm) & 3 == 1,
        block_descriptor(pa, attr, perm) & PTE_FLAG_ACCESS != 0,
        block_descriptor(pa, attr, perm) != 0,
        block_descriptor(pa, attr, perm) & BLOCK_ADDRESS_MASK == pa,
        (block_descriptor(pa, attr, perm) >> 2u64) & 7 == attr,
        block_descriptor(pa, attr, perm) & PERMISSION_MASK == perm,
{
    assert(pa & 0x1ff_ffff == 0 && pa >> 48u64 == 0) by (bit_vector)
        requires
            pa % 0x200_0000 == 0,
            pa < 0x1_0000_0000_0000,
    ;
    assert(PTE_PXN | PTE_UXN == 0x60_0000_0000_0000u64) by (bit_vector);
    assert(PTE_AP_RO | PTE_PXN | PTE_UXN == 0x60_0000_0000_0080u64) by (bit_vector);
    let d = block_descriptor(pa, attr, perm);
    assert(d & 3 == 1 && d & 0x400 != 0 && d != 0 && d & 0x0000_FFFF_FE00_0000u64 == pa && (d >> 2u64) & 7 == attr
        && d & 0x60_0000_0000_0080u64 == perm) by (bit_vector)
        requires
            d == 1u64 | pa | 0x400u64 | ((attr & 7) << 2u64) | perm,
            pa & 0x1ff_ffff == 0,
            pa >> 48u64 == 0,
            attr < 8,
            perm == 0 || perm == 0x60_0000_0000_0000u64 || perm == 0x60_0000_0000_0080u64,
    ;
}

impl PageTables {
    /// The entry of block `n` read through the bookkeeping of which level-2
    /// table each level-1 entry holds.
    closed spec fn slot_entry(self, n: int) -> Option<u64> {
        let s = n / 2048;
        if self.level1@[s] == 0 {
            None
        } else {
            let e = self.level2@[self.slot_table@[s] * 2048 + n % 2048];
            if e == 0 {
                None
            } else {
                Some(e)
            }
        }
    }

    proof fn lemma_entry_shape(self, n: int)
        requires
            self.wf(),
            0 <= n < BLOCKS,
        ensures
            self.block_entry(n) == self.slot_entry(n),
    {
        self.lemma_root_walk(n);
        let s = n / 2048;
        assert(0u64 & 3 == 0) by (bit_vector);
        if self.level1@[s] != 0 {
            let k = self.slot_table@[s] as int;
            assert(self.addresses()[2 + k] == self.pool@[k]);
            lemma_table_descriptor(self.pool@[k]);
            assert forall|a: int, b: int| 0 <= a < b < self.pool@.len() implies self.pool@[a]
                != self.pool@[b] by {
                assert(self.addresses()[2 + a] == self.pool@[a]);
                assert(self.addresses()[2 + b] == self.pool@[b]);
            }
            lemma_find_address_distinct(self.pool@, k, self.used as int);
            assert(k * 2048 + n % 2048 < self.used * 2048);
        }
    }

    /// Whether block `n` is mapped.
    pub closed spec fn block_mapped(self, n: int) -> bool {
        self.block_entry(n) is Some
    }

    /// Whether no 32 MiB block that the `size` bytes at `va` touch is mapped.
    pub closed spec fn range_unmapped(self, va: u64, size: u64) -> bool {
        forall|n: int|
            va / L2_BLOCK_SIZE <= n < (va + size + L2_BLOCK_SIZE - 1) / L2_BLOCK_SIZE as int && n
                < BLOCKS ==> !#[trigger] self.block_mapped(n)
    }

    /// Whether no 32 MiB block that the `size` bytes at `va` touch is mapped:
    /// what `map` asks of its range, since a mapped block is never
    /// overwritten.
    pub fn is_range_unmapped(&self, va: u64, size: u64) -> (r: bool)
        requires
            self.wf(),
        ensures
            r == self.range_unmapped(va, size),
    {
        let first = va / L2_BLOCK_SIZE;
        let total = (va as u128 + size as u128 + (L2_BLOCK_SIZE - 1) as u128) / (
        L2_BLOCK_SIZE as u128);
        let end: u64 = if total > BLOCKS as u128 {
            BLOCKS
        } else {
            total as u64
        };
        let mut n = first;
        while n < end
            invariant
                self.wf(),
                first == va / L2_BLOCK_SIZE,
                first <= n,
                end <= BLOCKS,
                end == (if total > BLOCKS as u128 { BLOCKS as int } else { total as int }),
                total == (va + size + L2_BLOCK_SIZE - 1) / L2_BLOCK_SIZE as int,
                forall|m: int| first <= m < n && m < end ==> !#[trigger] self.block_mapped(m),
            decreases end - n,
        {
            proof {
                self.lemma_entry_shape(n as int);
            }
            if self.slot_entry_exec(n) != 0 {
                assert(self.block_mapped(n as int));
                assert(!self.range_unmapped(va, size));
                return false;
            }
            n = n + 1;
        }
        true
    }

    /// Level-2 tables that mapping `size` bytes at `va` takes from the pool:
    /// the level-1 entries over the range that hold no table yet.
    pub closed spec fn tables_needed(self, va: u64, size: u64) -> nat {
        tables_needed_for(self.level1@, va, size)
    }

    /// The result `map` gives for these arguments.
    pub closed spec fn map_outcome(self, va: u64, pa: u64, size: u64) -> Result<(), MapError> {
        map_outcome_for(self.level1@, self.free_tables(), va, pa, size)
    }

    fn slot_entry_exec(&self, n: u64) -> (r: u64)
        requires
            self.wf(),
            n < BLOCKS,
        ensures
            r == 0 <==> self.slot_entry(n as int) is None,
            r != 0 ==> self.slot_entry(n as int) == Some(r),
    {
        let s = (n / 2048) as usize;
        if self.level1[s] == 0 {
            0
        } else {
            let k = self.slot_table[s];
            self.level2[k * 2048 + (n % 2048) as usize]
        }
    }

    /// What the lower-half address `va` translates to, found by walking the
    /// tables from the root.
    pub fn lookup(&self, va: u64) -> (r: Option<Mapping>)
        requires
            self.wf(),
        ensures
            r == self.translate(va),
    {
        if va >= ADDRESS_SPACE {
            return None;
        }
        let n = va / L2_BLOCK_SIZE;
        proof {
            self.lemma_entry_shape(n as int);
        }
        let e = self.slot_entry_exec(n);
        assert(e & 0x0000_FFFF_FE00_0000u64 <= 0x0000_FFFF_FE00_0000u64) by (bit_vector);
        if e == 0 {
            None
        } else {
            Some(
                Mapping {
                    pa: (e & BLOCK_ADDRESS_MASK) + va % L2_BLOCK_SIZE,
                    attr: (e >> 2u64) & 7,
                    perm: e & PERMISSION_MASK,
                },
            )
        }
    }

    proof fn lemma_take_table(old: PageTables, new: PageTables, s: int)
        requires
            old.wf(),
            0 <= s < L1_SLOTS,
            old.level1@[s] == 0,
            old.used < old.pool@.len(),
            new.root == old.root,
            new.level1_addresses == old.level1_addresses,
            new.pool@ == old.pool@,
            new.used == old.used + 1,
            new.level1@ == old.level1@.update(s, table_descriptor(old.pool@[old.used as int])),
            new.slot_table@ == old.slot_table@.update(s, old.used),
            new.level2@.len() == new.used * ENTRIES_PER_TABLE,
            new.level2@.subrange(0, old.level2@.len() as int) == old.level2@,
            forall|i: int| old.level2@.len() <= i < new.level2@.len() ==> new.level2@[i] == 0,
        ensures
            new.wf(),
            new.level1@[s] != 0,
            forall|m: int| 0 <= m < BLOCKS ==> new.slot_entry(m) == old.slot_entry(m),
    {
        assert(new.addresses() == old.addresses());
        let k = old.used as int;
        assert(old.addresses()[2 + k] == old.pool@[k]);
        lemma_table_descriptor(old.pool@[k]);
        assert forall|i: int| 0 <= i < new.level2@.len() implies #[trigger] new.level2@[i] == 0
            || is_valid_block(new.level2@[i]) by {
            if i < old.level2@.len() {
                assert(new.level2@[i] == new.level2@.subrange(0, old.level2@.len() as int)[i]);
            }
        }
        assert forall|m: int| 0 <= m < BLOCKS implies new.slot_entry(m) == old.slot_entry(m) by {
            let t = m / 2048;
            if t != s && old.level1@[t] != 0 {
                let i = old.slot_table@[t] * 2048 + m % 2048;
                assert(new.level2@[i] == new.level2@.subrange(0, old.level2@.len() as int)[i]);
            }
            if t == s {
                assert(new.level2@[k * 2048 + m % 2048] == 0);
            }
        }
    }

    proof fn lemma_set_entry(old: PageTables, new: PageTables, n: int, d: u64)
        requires
            old.wf(),
            0 <= n < BLOCKS,
            old.level1@[n / 2048] != 0,
            d != 0,
            is_valid_block(d),
            new.root == old.root,
            new.level1_addresses == old.level1_addresses,
            new.pool@ == old.pool@,
            new.used == old.used,
            new.level1@ == old.level1@,
            new.slot_table@ == old.slot_table@,
            new.level2@ == old.level2@.update(
                old.slot_table@[n / 2048] * 2048 + n % 2048,
                d,
            ),
        ensures
            new.wf(),
            forall|m: int|
                0 <= m < BLOCKS ==> new.slot_entry(m) == if m == n {
                    Some(d)
                } else {
                    old.slot_entry(m)
                },
    {
        assert(new.addresses() == old.addresses());
        let s = n / 2048;
        assert forall|m: int| 0 <= m < BLOCKS implies new.slot_entry(m) == if m == n {
            Some(d)
        } else {
            old.slot_entry(m)
        } by {
            let t = m / 2048;
            if old.level1@[t] != 0 && m != n {
                if t == s {
                    assert(m % 2048 != n % 2048);
                } else {
                    assert(old.slot_table@[t] != old.slot_table@[s]);
                }
            }
        }
    }

    /// Maps the `size` bytes at `va` to the `size` bytes at `pa` with memory
    /// type `attr` and access `perm`, in 32 MiB blocks. Refuses, changing
    /// nothing, when an address or the size is not a multiple of 32 MiB, when
    /// the range runs past 2^48, or when the pool lacks the level-2 tables the
    /// range needs. No block of the range may be mapped already: a valid
    /// block is never overwritten (`is_range_unmapped` tells).
    pub fn map(
        &mut self,
        va: u64,
        pa: u64,
        size: u64,
        attr: MemoryAttribute,
        perm: Permission,
    ) -> (r: Result<(), MapError>)
        requires
            old(self).wf(),
            old(self).range_unmapped(va, size),
        ensures
            final(self).wf(),
            final(self).level1_table_addresses() == old(self).level1_table_addresses(),
            final(self).pool_addresses() == old(self).pool_addresses(),
            r == old(self).map_outcome(va, pa, size),
            r is Err ==> *final(self) == *old(self),
            r is Ok ==> final(self).free_tables() == old(self).free_tables() - old(self).tables_needed(va, size),
            old(self).used_tables() <= final(self).used_tables(),
            final(self).used_tables() + final(self).free_tables() == old(self).used_tables() + old(self).free_tables(),
            forall|s: int|
                0 <= s < L1_SLOTS && old(self).level1_tables()[s] != 0 ==> #[trigger] final(self).level1_tables()[s] == old(self).level1_tables()[s],
            forall|s: int|
                0 <= s < L1_SLOTS && old(self).level1_tables()[s] == 0 && #[trigger] final(self).level1_tables()[s] != 0 ==> exists|k: int|
                    old(self).used_tables() <= k < final(self).used_tables() && final(self).level1_tables()[s] == table_descriptor(final(self).pool_addresses()[k]),
            r is Ok ==> forall|a: u64| #[trigger]
                final(self).translate(a) == if va <= a < va + size {
                    Some(
                        Mapping {
                            pa: (pa + (a - va)) as u64,
                            attr: attr_index(attr),
                            perm: permission_bits(perm),
                        },
                    )
                } else {
                    old(self).translate(a)
                },
    {
        if va % L2_BLOCK_SIZE != 0 || pa % L2_BLOCK_SIZE != 0 || size % L2_BLOCK_SIZE != 0 {
            return Err(MapError::Misaligned);
        }
        if va > ADDRESS_SPACE || ADDRESS_SPACE - va < size || pa > ADDRESS_SPACE || ADDRESS_SPACE
            - pa < size {
            return Err(MapError::OutOfRange);
        }
        let first = va / L2_BLOCK_SIZE;
        let end = first + size / L2_BLOCK_SIZE;
        assert((va + size) / L2_BLOCK_SIZE as int == end);
        assert((va + size + L2_BLOCK_SIZE - 1) / L2_BLOCK_SIZE as int == end) by (nonlinear_arith)
            requires
                (va + size) % 0x200_0000 == 0,
                end == (va + size) / 0x200_0000,
                L2_BLOCK_SIZE == 0x200_0000,
        ;
        assert(forall|m: int| first <= m < end ==> !#[trigger] old(self).block_mapped(m));
        let slot_end: u64 = if end > first {
            (end - 1) / 2048 + 1
        } else {
            first / 2048
        };
        let needed = self.count_missing(first / 2048, slot_end);
        if needed > (self.pool.len() - self.used) as u64 {
            return Err(MapError::PoolExhausted);
        }
        let ai = attr.index();
        let pb = perm.bits();
        let ghost before = *self;
        let mut n = first;
        while n < end
            invariant
                self.wf(),
                first <= n <= end <= BLOCKS,
                end == first + size / L2_BLOCK_SIZE,
                va == first * L2_BLOCK_SIZE,
                pa % L2_BLOCK_SIZE == 0,
                pa + size <= ADDRESS_SPACE,
                ai == attr_index(attr),
                pb == permission_bits(perm),
                before.wf(),
                self.level1_addresses == before.level1_addresses,
                self.pool@ == before.pool@,
                before.used <= self.used,
                forall|t: int|
                    0 <= t < L1_SLOTS && before.level1@[t] != 0 ==> #[trigger] self.level1@[t]
                        == before.level1@[t],
                forall|t: int|
                    0 <= t < L1_SLOTS && before.level1@[t] == 0 && #[trigger] self.level1@[t] != 0
                        ==> exists|k: int|
                        before.used <= k < self.used && self.level1@[t] == table_descriptor(
                            self.pool@[k],
                        ),
                forall|m: int| first <= m < end ==> !#[trigger] before.block_mapped(m),
                slot_end == (if end > first {
                    ((end - 1) / 2048 + 1) as u64
                } else {
                    first / 2048
                }),
                n < end ==> missing_slots(self.level1@, (n / 2048) as int, slot_end as int) <= self.pool@.len()
                    - self.used,
                self.pool@.len() - self.used == before.pool@.len() - before.used - (missing_slots(
                    before.level1@,
                    (first / 2048) as int,
                    slot_end as int,
                ) - (if n < end {
                    missing_slots(self.level1@, (n / 2048) as int, slot_end as int) as int
                } else {
                    0
                })),
                forall|m: int|
                    0 <= m < BLOCKS ==> #[trigger] self.slot_entry(m) == if first <= m < n {
                        Some(
                            block_descriptor(
                                (pa + (m - first) * L2_BLOCK_SIZE) as u64,
                                attr_index(attr),
                                permission_bits(perm),
                            ),
                        )
                    } else {
                        before.slot_entry(m)
                    },
            decreases end - n,
        {
            let s = (n / 2048) as usize;
            let ghost level1_at_start = self.level1@;
            let ghost free_at_start = self.pool@.len() - self.used;
            assert(s < slot_end);
            if self.level1[s] == 0 {
                let k = self.used;
                let ghost prev = *self;
                let mut z: usize = 0;
                while z < 2048
                    invariant
                        z <= 2048,
                        self.level2@.len() == prev.level2@.len() + z,
                        self.level2@.subrange(0, prev.level2@.len() as int) == prev.level2@,
                        forall|i: int| prev.level2@.len() <= i < self.level2@.len() ==> self.level2@[i] == 0,
                        self.root == prev.root,
                        self.level1_addresses == prev.level1_addresses,
                        self.pool@ == prev.pool@,
                        self.used == prev.used,
                        self.level1@ == prev.level1@,
                        self.slot_table@ == prev.slot_table@,
                    decreases 2048 - z,
                {
                    self.level2.push(0);
                    z = z + 1;
                    assert(self.level2@.subrange(0, prev.level2@.len() as int) =~= prev.level2@);
                }
                let entry = create_table_page_table_entry(self.pool[k]);
                self.level1.set(s, entry);
                self.slot_table.set(s, k);
                self.used = k + 1;
                proof {
                    assert(before.level1@[s as int] == 0);
                    assert(self.level1@[s as int] == table_descriptor(self.pool@[k as int]));
                    PageTables::lemma_take_table(prev, *self, s as int);
                    lemma_missing_slots_frame(prev.level1@, self.level1@, s + 1, slot_end as int);
                }
            }
            let k = self.slot_table[s];
            let target = (pa + (n - first) * L2_BLOCK_SIZE) as u64;
            assert(target % L2_BLOCK_SIZE == 0);
            proof {
                lemma_block_descriptor(target, ai, pb);
            }
            let d = create_block_page_table_entry(target, ai, pb);
            let ghost prev = *self;
            self.level2.set(k * 2048 + (n % 2048) as usize, d);
            proof {
                PageTables::lemma_set_entry(prev, *self, n as int, d);
                before.lemma_entry_shape(n as int);
                let hi = slot_end as int;
                let si = s as int;
                lemma_missing_slots_frame(level1_at_start, self.level1@, si + 1, hi);
                assert(missing_slots(self.level1@, si, hi) == missing_slots(self.level1@, si + 1, hi));
                assert(missing_slots(level1_at_start, si, hi) == (if level1_at_start[si] == 0 {
                    1nat
                } else {
                    0nat
                }) + missing_slots(level1_at_start, si + 1, hi));
                assert(self.pool@.len() - self.used == free_at_start - (if level1_at_start[si] == 0 {
                    1int
                } else {
                    0int
                }));
                if n + 1 == end {
                    assert(si + 1 == hi);
                } else {
                    assert((n + 1) / 2048 == si || (n + 1) / 2048 == si + 1);
                }
            }
            n = n + 1;
        }
        proof {
            assert forall|a: u64| #[trigger]
                self.translate(a) == if va <= a < va + size {
                    Some(
                        Mapping {
                            pa: (pa + (a - va)) as u64,
                            attr: attr_index(attr),
                            perm: permission_bits(perm),
                        },
                    )
                } else {
                    before.translate(a)
                } by {
                if a < ADDRESS_SPACE {
                    let m = a as int / L2_BLOCK_SIZE as int;
                    self.lemma_entry_shape(m);
                    before.lemma_entry_shape(m);
                    if va <= a < va + size {
                        let target = (pa + (m - first) * L2_BLOCK_SIZE) as u64;
                        lemma_block_descriptor(target, ai, pb);
                    }
                }
            }
        }
        Ok(())
    }

    fn count_missing(&self, lo: u64, hi: u64) -> (r: u64)
        requires
            self.wf(),
            lo <= hi <= L1_SLOTS,
        ensures
            r == missing_slots(self.level1@, lo as int, hi as int),
    {
        let mut count: u64 = 0;
        let mut i = lo;
        while i < hi
            invariant
                lo <= i <= hi <= L1_SLOTS,
                self.level1@.len() == L1_SLOTS,
                count <= i - lo,
                missing_slots(self.level1@, lo as int, hi as int) == count + missing_slots(
                    self.level1@,
                    i as int,
                    hi as int,
                ),
            decreases hi - i,
        {
            if self.level1[i as usize] == 0 {
                count = count + 1;
            }
            i = i + 1;
        }
        count
    }
}

/// Memory-attribute register: slot 0 normal write-back read/write-allocate
/// memory (`0xFF`), slot 1 Device-nGnRnE (`0x00`), slot 2 Device-nGnRE (`0x04`).
pub const MAIR_VALUE: u64 = (0xFF << (ATTR_NORMAL * 8)) | (0x00 << (ATTR_DEVICE_NGNRNE * 8)) | (0x04
    << (ATTR_DEVICE_NGNRE * 8));

/// Intermediate physical address size: 1 TB.
pub const TCR_IPS_1TB: u64 = 0b010 << 32;

/// 16 KiB granule for the upper half.
pub const TCR_TG1_16K: u64 = 0b01 << 30;

/// Inner shareable walks for the upper half.
pub const TCR_SH1_IS: u64 = 0b11 << 28;

/// Outer write-back write-allocate walks for the upper half.
pub const TCR_ORGN1_WBWA: u64 = 0b01 << 26;

/// Inner write-back write-allocate walks for the upper half.
pub const TCR_IRGN1_WBWA: u64 = 0b01 << 24;

/// 48-bit input addresses for the upper half.
pub const TCR_T1SZ_48BIT: u64 = 16 << 16;

/// 16 KiB granule for the lower half.
pub const TCR_TG0_16K: u64 = 0b10 << 14;

/// Inner shareable walks for the lower half.
pub const TCR_SH0_IS: u64 = 0b11 << 12;

/// Outer write-back write-allocate walks for the lower half.
pub const TCR_ORGN0_WBWA: u64 = 0b01 << 10;

/// Inner write-back write-allocate walks for the lower half.
pub const TCR_IRGN0_WBWA: u64 = 0b01 << 8;

/// 48-bit input addresses for the lower half.
pub const TCR_T0SZ_48BIT: u64 = 16;

/// Translation-control register value.
pub const TCR_VALUE: u64 = TCR_IPS_1TB | TCR_TG1_16K | TCR_SH1_IS | TCR_ORGN1_WBWA | TCR_IRGN1_WBWA
    | TCR_T1SZ_48BIT | TCR_TG0_16K | TCR_SH0_IS | TCR_ORGN0_WBWA | TCR_IRGN0_WBWA | TCR_T0SZ_48BIT;

/// System control: translation enabled.
pub const SCTLR_M: u64 = 1 << 0;

/// System control: alignment checks.
pub const SCTLR_A: u64 = 1 << 1;

/// System control: data cache enabled.
pub const SCTLR_C: u64 = 1 << 2;

/// System control: stack alignment checks.
pub const SCTLR_SA: u64 = 1 << 3;

/// System control: stack alignment checks at level 0.
pub const SCTLR_SA0: u64 = 1 << 4;

/// System control: instruction cache enabled.
pub const SCTLR_I: u64 = 1 << 12;

/// Every bit that turning the translation on sets.
pub const SCTLR_ENABLE: u64 = SCTLR_M | SCTLR_A | SCTLR_C | SCTLR_SA | SCTLR_SA0 | SCTLR_I;

/// Reserved bits of the level-1 system control register that read as one.
pub const SCTLR_EL1_RES1: u64 = 0x30D0_0800;

/// Reserved bits of the level-2 and level-3 system control registers that
/// read as one.
pub const SCTLR_EL2_RES1: u64 = 0x30C5_0830;

/// The system control value that turns translation, caches and alignment
/// checks on at level `el`, from the value `current` read from the register;
/// `None` at level 0, which has no such register.
pub fn sctlr_mmu_enabled(current: u64, el: ExceptionLevel) -> (r: Option<u64>)
    ensures
        r == match el {
            ExceptionLevel::El0 => None,
            ExceptionLevel::El1 => Some(current | SCTLR_ENABLE | SCTLR_EL1_RES1),
            _ => Some(current | SCTLR_ENABLE | SCTLR_EL2_RES1),
        },
{
    match el {
        ExceptionLevel::El0 => None,
        ExceptionLevel::El1 => Some(current | SCTLR_ENABLE | SCTLR_EL1_RES1),
        _ => Some(current | SCTLR_ENABLE | SCTLR_EL2_RES1),
    }
}

/// Start of the device window of the default map.
pub const MMIO_BASE: u64 = 0;

/// Size of the device window of the default map: 32 GiB.
pub const MMIO_SIZE: u64 = 0x8_0000_0000;

/// Start of the memory window of the default map.
pub const RAM_BASE: u64 = 0x8_0000_0000;

/// Size of the memory window of the default map: 16 GiB.
pub const RAM_SIZE: u64 = 0x4_0000_0000;

/// What the default map translates `va` to: the device window identity
/// mapped as Device-nGnRE, read/write, never executed; the memory window
/// identity mapped as normal memory, executable; nothing else.
pub open spec fn default_translation(va: u64) -> Option<Mapping> {
    if MMIO_BASE <= va < MMIO_BASE + MMIO_SIZE {
        Some(Mapping { pa: va, attr: ATTR_DEVICE_NGNRE, perm: PTE_PXN | PTE_UXN })
    } else if RAM_BASE <= va < RAM_BASE + RAM_SIZE {
        Some(Mapping { pa: va, attr: ATTR_NORMAL, perm: 0 })
    } else {
        None
    }
}

/// Builds the tables of the default map over the given table addresses.
/// Both windows lie under one level-1 entry, so one pool table is enough.
pub fn setup(level1_addresses: [u64; 2], pool: Vec<u64>) -> (r: Result<PageTables, MapError>)
    ensures
        match r {
            Ok(t) => {
                &&& t.wf()
                &&& t.level1_table_addresses() == level1_addresses@
                &&& t.pool_addresses() == pool@
                &&& forall|va: u64| #[trigger] t.translate(va) == default_translation(va)
            },
            Err(e) => e == MapError::PoolTooLarge || e == MapError::BadTableAddress || e
                == MapError::PoolExhausted,
        },
        r is Ok <==> pool@.len() <= L1_SLOTS && valid_addresses(level1_addresses@ + pool@)
            && pool@.len() >= 1,
{
    let mut t = match PageTables::new(level1_addresses, pool) {
        Ok(t) => t,
        Err(e) => return Err(e),
    };
    let ghost empty = t;
    proof {
        assert(0u64 & 3 == 0) by (bit_vector);
        assert(forall|n: int| 0 <= n < BLOCKS ==> !#[trigger] empty.block_mapped(n)) by {
            assert forall|n: int| 0 <= n < BLOCKS implies !#[trigger] empty.block_mapped(n) by {
                empty.lemma_entry_shape(n);
                assert(empty.level1@[n / 2048] == 0);
            }
        }
        assert(missing_slots(empty.level1@, 1, 1) == 0);
        assert(missing_slots(empty.level1@, 0, 1) == 1);
    }
    match t.map(MMIO_BASE, MMIO_BASE, MMIO_SIZE, MemoryAttribute::DeviceNGnRE, Permission::ReadWrite) {
        Ok(()) => {},
        Err(e) => {
            return Err(e);
        },
    }
    let ghost mapped = t;
    proof {
        assert(mapped.translate(0) is Some);
        mapped.lemma_entry_shape(0);
        assert(mapped.level1@[0] != 0);
        assert(missing_slots(mapped.level1@, 1, 1) == 0);
        assert(missing_slots(mapped.level1@, 0, 1) == 0);
        assert forall|n: int|
            RAM_BASE / L2_BLOCK_SIZE <= n < (RAM_BASE + RAM_SIZE) / L2_BLOCK_SIZE as int
                implies !#[trigger] mapped.block_mapped(n) by {
            let a = (n * L2_BLOCK_SIZE) as u64;
            assert(a as int / L2_BLOCK_SIZE as int == n);
            assert(mapped.translate(a) == empty.translate(a));
            empty.lemma_entry_shape(n);
            mapped.lemma_entry_shape(n);
        }
    }
    match t.map(RAM_BASE, RAM_BASE, RAM_SIZE, MemoryAttribute::Normal, Permission::ReadWriteExecute) {
        Ok(()) => {},
        Err(e) => {
            return Err(e);
        },
    }
    proof {
        assert(PTE_PXN | PTE_UXN == 0x60_0000_0000_0000u64) by (bit_vector);
    }
    Ok(t)
}

impl PageTables {
    /// The two root entries.
    pub closed spec fn root_table(self) -> Seq<u64> {
        self.root@
    }

    /// Both level-1 tables, one after the other.
    pub closed spec fn level1_tables(self) -> Seq<u64> {
        self.level1@
    }

    /// The level-2 tables in use, in the order of the pool.
    pub closed spec fn level2_tables(self) -> Seq<u64> {
        self.level2@
    }

    /// The root table, to be placed where translation starts.
    pub fn root_entries(&self) -> (r: [u64; 2])
        ensures
            r@ == self.root_table(),
    {
        self.root
    }

    /// Both level-1 tables, 2048 entries each: the first goes to the first
    /// level-1 address, the second to the second.
    pub fn level1_entries(&self) -> (r: &[u64])
        requires
            self.wf(),
        ensures
            r@ == self.level1_tables(),
            r@.len() == L1_SLOTS,
    {
        self.level1.as_slice()
    }

    /// The level-2 tables in use, 2048 entries each: table `k` goes to pool
    /// address `k`.
    pub fn level2_entries(&self) -> (r: &[u64])
        requires
            self.wf(),
        ensures
            r@ == self.level2_tables(),
            r@.len() == (self.pool_size() - self.free_tables()) * ENTRIES_PER_TABLE,
    {
        self.level2.as_slice()
    }

    /// The addresses the two level-1 tables are placed at.
    pub closed spec fn level1_table_addresses(self) -> Seq<u64> {
        self.level1_addresses@
    }

    /// The addresses of the level-2 tables of the pool, used or free.
    pub closed spec fn pool_addresses(self) -> Seq<u64> {
        self.pool@
    }

    /// Level-2 tables taken from the pool so far: the first ones of the pool.
    pub closed spec fn used_tables(self) -> nat {
        self.used as nat
    }

    /// Tables in the pool, used or free.
    pub closed spec fn pool_size(self) -> nat {
        self.pool@.len()
    }

    /// Level-2 tables taken from the pool so far.
    pub fn tables_in_use(&self) -> (r: usize)
        requires
            self.wf(),
        ensures
            r == self.pool_size() - self.free_tables(),
    {
        self.used
    }
}

/// Level-2 tables that mapping `size` bytes at `va` takes from the pool,
/// over the level-1 tables `l1`: the level-1 entries the range covers that
/// hold no table yet.
pub open spec fn tables_needed_for(l1: Seq<u64>, va: u64, size: u64) -> nat {
    let first = va / L2_BLOCK_SIZE;
    let end = first + size / L2_BLOCK_SIZE;
    if size == 0 {
        0
    } else {
        missing_slots(l1, (first / 2048) as int, ((end - 1) / 2048 + 1) as int)
    }
}

/// The result of mapping `size` bytes at `va` to `pa`, over the level-1
/// tables `l1` with `free` level-2 tables left in the pool.
pub open spec fn map_outcome_for(l1: Seq<u64>, free: nat, va: u64, pa: u64, size: u64) -> Result<
    (),
    MapError,
> {
    if va % L2_BLOCK_SIZE != 0 || pa % L2_BLOCK_SIZE != 0 || size % L2_BLOCK_SIZE != 0 {
        Err(MapError::Misaligned)
    } else if va + size > ADDRESS_SPACE || pa + size > ADDRESS_SPACE {
        Err(MapError::OutOfRange)
    } else if tables_needed_for(l1, va, size) > free {
        Err(MapError::PoolExhausted)
    } else {
        Ok(())
    }
}

/// What the arrays handed out for placement hold. The root entries are
/// table entries of the two level-1 addresses; a level-1 entry is zero or a
/// table entry of a pool address in use; a level-2 entry is zero or a valid
/// block entry, with the access flag set. Translation is the hardware walk
/// over exactly these arrays placed at those addresses.
pub proof fn lemma_table_layout(t: PageTables)
    requires
        t.wf(),
    ensures
        t.level1_table_addresses().len() == 2,
        t.root_table() == seq![
            table_descriptor(t.level1_table_addresses()[0]),
            table_descriptor(t.level1_table_addresses()[1]),
        ],
        t.level1_tables().len() == L1_SLOTS,
        t.pool_size() == t.pool_addresses().len(),
        t.used_tables() + t.free_tables() == t.pool_size(),
        t.level2_tables().len() == t.used_tables() * ENTRIES_PER_TABLE,
        t.level1_empty() == (forall|s: int| 0 <= s < L1_SLOTS ==> t.level1_tables()[s] == 0),
        forall|va: u64, size: u64| #[trigger]
            t.tables_needed(va, size) == tables_needed_for(t.level1_tables(), va, size),
        forall|va: u64, pa: u64, size: u64| #[trigger]
            t.map_outcome(va, pa, size) == map_outcome_for(
                t.level1_tables(),
                t.free_tables(),
                va,
                pa,
                size,
            ),
        forall|n: int|
            0 <= n < BLOCKS ==> #[trigger] t.block_mapped(n) == (t.translate(
                (n * L2_BLOCK_SIZE) as u64,
            ) is Some),
        forall|va: u64, size: u64| #[trigger]
            t.range_unmapped(va, size) == (forall|n: int|
                va / L2_BLOCK_SIZE <= n < (va + size + L2_BLOCK_SIZE - 1) / L2_BLOCK_SIZE as int
                    && n < BLOCKS ==> !#[trigger] t.block_mapped(n)),
        forall|s: int|
            0 <= s < L1_SLOTS ==> #[trigger] t.level1_tables()[s] == 0 || exists|k: int|
                0 <= k < t.used_tables() && t.level1_tables()[s] == table_descriptor(
                    t.pool_addresses()[k],
                ),
        forall|i: int|
            0 <= i < t.level2_tables().len() ==> #[trigger] t.level2_tables()[i] == 0
                || is_valid_block(t.level2_tables()[i]),
        forall|va: u64|
            #[trigger] t.translate(va) == walk(
                t.root_table(),
                t.level1_table_addresses(),
                t.level1_tables(),
                t.pool_addresses(),
                t.used_tables() as int,
                t.level2_tables(),
                va,
            ),
{
    assert forall|n: int|
        0 <= n < BLOCKS implies #[trigger] t.block_mapped(n) == (t.translate(
            (n * L2_BLOCK_SIZE) as u64,
        ) is Some) by {
        let a = (n * L2_BLOCK_SIZE) as u64;
        assert(a as int / L2_BLOCK_SIZE as int == n);
    }
    assert(t.root_table() =~= seq![
        table_descriptor(t.level1_table_addresses()[0]),
        table_descriptor(t.level1_table_addresses()[1]),
    ]);
    assert forall|s: int|
        0 <= s < L1_SLOTS implies #[trigger] t.level1_tables()[s] == 0 || exists|k: int|
            0 <= k < t.used_tables() && t.level1_tables()[s] == table_descriptor(
                t.pool_addresses()[k],
            ) by {
        if t.level1_tables()[s] != 0 {
            let k = t.slot_table@[s] as int;
            assert(0 <= k < t.used_tables());
        }
    }
}

} // verus!
