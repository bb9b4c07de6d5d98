//! Address alignment, region clearing and the UART clock divisor.
use vstd::prelude::*;

use vstd::arithmetic::power2::{lemma_pow2_pos, pow2};
use vstd::bits::{lemma_u64_low_bits_mask_is_mod, low_bits_mask};

verus! {

/// Whether `n` is a power of two.
pub open spec fn is_power_of_two(n: u64) -> bool {
    exists|k: nat| k < 64 && n == #[trigger] pow2(k)
}

proof fn lemma_align_down_mask(addr: u64, align: u64)
    requires
        is_power_of_two(align),
    ensures
        align > 0,
        addr & !((align - 1) as u64) == addr - addr % align,
{
    let k = choose|k: nat| k < 64 && align == #[trigger] pow2(k);
    lemma_pow2_pos(k);
    lemma_u64_low_bits_mask_is_mod(addr, k);
    let m: u64 = (align - 1) as u64;
    assert(m == low_bits_mask(k) as u64);
    assert(addr & !m == addr - (addr & m)) by (bit_vector);
}

/// `addr` rounded down to a multiple of `align`, a power of two.
pub fn align_down(addr: u64, align: u64) -> (r: u64)
    requires
        is_power_of_two(align),
    ensures
        r == addr - addr % align,
{
    proof {
        lemma_align_down_mask(addr, align);
    }
    addr & !(align - 1)
}

/// `addr` rounded up to a multiple of `align`, a power of two; the result
/// must fit in 64 bits.
pub fn align_up(addr: u64, align: u64) -> (r: u64)
    requires
        is_power_of_two(align),
        addr + align - 1 <= u64::MAX,
    ensures
        r % align == 0,
        addr <= r < addr + align,
{
    proof {
        lemma_align_down_mask(addr, align);
    }
    let bumped = addr + (align - 1);
    let r = align_down(bumped, align);
    assert(r % align == 0 && addr <= r < addr + align) by (nonlinear_arith)
        requires
            r == bumped - bumped % align,
            bumped == addr + align - 1,
            align > 0,
    ;
    r
}

/// Zeroes every byte of `region`.
pub fn clean_bss(region: &mut [u8])
    ensures
        final(region)@ == Seq::new(old(region)@.len(), |i: int| 0u8),
{
    let len = region.len();
    let mut i: usize = 0;
    while i < len
        invariant
            i <= len,
            len == region@.len(),
            forall|j: int| 0 <= j < i ==> region@[j] == 0,
        decreases len - i,
    {
        region[i] = 0;
        i = i + 1;
    }
    assert(region@ =~= Seq::new(old(region)@.len(), |i: int| 0u8));
}

/// Frequency of the clock the UART divides, in hertz.
pub const UART_CLOCK: u32 = 24000000;

/// The divisor that sets a UART fed by `clock` to `baud`:
/// `((clock / baud + 7) / 16) - 1`; `None` when `baud` is zero or too high
/// for the clock.
pub fn baud_divisor(clock: u32, baud: u32) -> (r: Option<u32>)
    ensures
        r == (if baud == 0 || (clock / baud + 7) / 16 == 0 {
            None
        } else {
            Some(((clock / baud + 7) / 16 - 1) as u32)
        }),
{
    if baud == 0 {
        return None;
    }
    let steps = (clock as u64 / baud as u64 + 7) / 16;
    if steps == 0 {
        None
    } else {
        Some((steps - 1) as u32)
    }
}

/// The ASCII decimal digits of `v`, least significant first.
pub open spec fn digits_lsb_first(v: u64) -> Seq<u8>
    decreases v,
{
    if v < 10 {
        seq![(48 + v) as u8]
    } else {
        seq![(48 + v % 10) as u8] + digits_lsb_first(v / 10)
    }
}

/// The ASCII decimal digits of `v`, most significant first.
pub open spec fn decimal_digits(v: u64) -> Seq<u8> {
    digits_lsb_first(v).reverse()
}

/// The bytes a UART prints for `v` in a field of `width` bytes: NUL bytes,
/// then the decimal digits.
pub open spec fn decimal_field_of(v: u64, width: nat) -> Seq<u8> {
    Seq::new((width - decimal_digits(v).len()) as nat, |i: int| 0u8) + decimal_digits(v)
}

/// Ten to the power `k`.
pub open spec fn pow10(k: nat) -> nat
    decreases k,
{
    if k == 0 {
        1
    } else {
        10 * pow10((k - 1) as nat)
    }
}

proof fn lemma_digits_len(v: u64, k: nat)
    requires
        k >= 1,
        v < pow10(k),
    ensures
        1 <= digits_lsb_first(v).len() <= k,
    decreases v,
{
    if v >= 10 {
        let p = pow10((k - 1) as nat);
        assert(k >= 2) by {
            if k == 1 {
                assert(pow10(0) == 1);
            }
        }
        assert(v / 10 < p) by (nonlinear_arith)
            requires
                v < 10 * p,
        ;
        lemma_digits_len(v / 10, (k - 1) as nat);
    }
}

/// The digits of `d` still to come, least significant first; none once `d`
/// is used up.
spec fn remaining_digits(d: u64) -> Seq<u8> {
    if d == 0 {
        Seq::empty()
    } else {
        digits_lsb_first(d)
    }
}

/// The decimal field a UART prints for `value`: `width` bytes, NUL bytes
/// followed by the digits. 20 bytes hold any `u64`, 10 any `u32`.
pub fn decimal_field(value: u64, width: usize) -> (r: Vec<u8>)
    requires
        width == 20 || (width == 10 && value <= u32::MAX),
    ensures
        r@ == decimal_field_of(value, width as nat),
        r@.len() == width,
{
    proof {
        reveal_with_fuel(pow10, 21);
        assert(pow10(20) == 100_000_000_000_000_000_000);
        assert(pow10(10) == 10_000_000_000);
        if width == 20 {
            lemma_digits_len(value, 20);
        } else {
            lemma_digits_len(value, 10);
        }
    }
    let mut lsb: Vec<u8> = Vec::new();
    lsb.push((48 + value % 10) as u8);
    let mut d = value / 10;
    assert(digits_lsb_first(value) =~= lsb@ + remaining_digits(d));
    while d > 0
        invariant
            digits_lsb_first(value) == lsb@ + remaining_digits(d),
        decreases d,
    {
        assert(remaining_digits(d) =~= seq![(48 + d % 10) as u8] + remaining_digits(d / 10));
        lsb.push((48 + d % 10) as u8);
        d = d / 10;
    }
    assert(lsb@ =~= digits_lsb_first(value));
    let mut out: Vec<u8> = Vec::new();
    let pad = width - lsb.len();
    while out.len() < pad
        invariant
            out@.len() <= pad,
            forall|i: int| 0 <= i < out@.len() ==> out@[i] == 0,
        decreases pad - out@.len(),
    {
        out.push(0);
    }
    let mut i = lsb.len();
    while i > 0
        invariant
            i <= lsb@.len(),
            out@.len() == pad + (lsb@.len() - i),
            forall|j: int| 0 <= j < pad ==> out@[j] == 0,
            forall|j: int|
                pad <= j < out@.len() ==> #[trigger] out@[j] == lsb@[lsb@.len() - 1 - (j - pad)],
        decreases i,
    {
        i = i - 1;
        out.push(lsb[i]);
    }
    assert(out@ =~= decimal_field_of(value, width as nat));
    out
}

} // verus!
