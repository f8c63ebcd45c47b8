//! Base numeric utilities: power-of-two tests, address alignment, bit masks
//! and byte-packed signatures.

use vstd::prelude::*;

use crate::error::EfiError;

verus! {

/// `x` is an exact power of two.
pub open spec fn is_pow2(x: u64) -> bool {
    exists|k: u64| k < 64 && x == (1u64 << k)
}

/// Checks whether `x` is a power of two. Zero is not a power of two.
pub fn is_power_of_two(x: u64) -> (b: bool)
    ensures
        b == is_pow2(x),
{
    let mut k: u64 = 0;
    while k < 64
        invariant
            k <= 64,
            forall|j: u64| j < k ==> x != (1u64 << j),
        decreases 64u64 - k,
    {
        if (1u64 << k) == x {
            return true;
        }
        k = k + 1;
    }
    false
}

/// Reducing modulo a power of two is the same as masking with the low bits.
proof fn lemma_mod_pow2_is_mask(x: u64, k: u64)
    requires
        k < 64,
    ensures
        x % (1u64 << k) == (x & ((1u64 << k) - 1) as u64),
{
    vstd::bits::lemma_u64_pow2_no_overflow(k as nat);
    vstd::bits::lemma_u64_shl_is_mul(1u64, k);
    vstd::bits::lemma_u64_low_bits_mask_is_mod(x, k as nat);
}

/// Clearing the low bits gives the value rounded down, by at most the mask.
proof fn lemma_mask_clears_low_bits(x: u64, m: u64)
    by (bit_vector)
    ensures
        (x & !m) & m == 0,
        (x & !m) <= x,
        x - (x & !m) == (x & m),
        (x & m) <= m,
{
}

/// Aligns `addr` down to the nearest multiple of `align`.
///
/// Returns `Err(EfiError::InvalidParameter)` exactly when `align` is not a
/// power of two; otherwise the result is the unique aligned address in
/// `(addr - align, addr]`.
pub fn align_down(addr: u64, align: u64) -> (r: Result<u64, EfiError>)
    ensures
        r is Ok <==> is_pow2(align),
        r matches Ok(v) ==> {
            &&& v as int % align as int == 0
            &&& v <= addr
            &&& addr - v < align
        },
        r is Err ==> r == Err::<u64, EfiError>(EfiError::InvalidParameter),
{
    if !is_power_of_two(align) {
        return Err(EfiError::InvalidParameter);
    }
    proof {
        let k = choose|k: u64| k < 64 && align == (1u64 << k);
        assert(align >= 1) by (bit_vector)
            requires
                k < 64 && align == (1u64 << k),
        ;
        let m = (align - 1) as u64;
        lemma_mask_clears_low_bits(addr, m);
        lemma_mod_pow2_is_mask((addr & !m), k);
    }
    Ok(addr & !(align - 1))
}

/// The smallest multiple of `align` that is at least `addr`.
pub open spec fn spec_align_up(addr: int, align: int) -> int {
    if addr % align == 0 {
        addr
    } else {
        addr + (align - addr % align)
    }
}

/// Setting the low bits fills the value up to the mask, with no carry.
proof fn lemma_low_bits_fill(x: u64, m: u64)
    by (bit_vector)
    ensures
        (x | m) == (x & !m) + m,
{
}

/// Aligns `addr` up to the nearest multiple of `align`.
///
/// Returns `Err(EfiError::InvalidParameter)` exactly when `align` is not a
/// power of two or the aligned address does not fit in 64 bits.
pub fn align_up(addr: u64, align: u64) -> (r: Result<u64, EfiError>)
    ensures
        r is Ok <==> is_pow2(align) && spec_align_up(addr as int, align as int) <= u64::MAX,
        r matches Ok(v) ==> v == spec_align_up(addr as int, align as int),
        r is Err ==> r == Err::<u64, EfiError>(EfiError::InvalidParameter),
{
    if !is_power_of_two(align) {
        return Err(EfiError::InvalidParameter);
    }
    let ghost k: u64 = choose|k: u64| k < 64 && align == (1u64 << k);
    proof {
        assert(align >= 1) by (bit_vector)
            requires
                k < 64 && align == (1u64 << k),
        ;
        lemma_mod_pow2_is_mask(addr, k);
        lemma_mask_clears_low_bits(addr, (align - 1) as u64);
        lemma_low_bits_fill(addr, (align - 1) as u64);
    }
    let mask = align - 1;
    if addr & mask == 0 {
        Ok(addr)
    } else if (addr | mask) == u64::MAX {
        Err(EfiError::InvalidParameter)
    } else {
        Ok((addr | mask) + 1)
    }
}

/// Aligns the range `[base, base + length)` outward: the base is aligned
/// down and the end is aligned up, both to `align`.
///
/// Returns `Err(EfiError::InvalidParameter)` exactly when `align` is not a
/// power of two or the aligned end does not fit in 64 bits.
pub fn align_range(base: u64, length: u64, align: u64) -> (r: Result<(u64, u64), EfiError>)
    requires
        base + length <= u64::MAX,
    ensures
        r is Ok <==> is_pow2(align) && spec_align_up(base + length, align as int) <= u64::MAX,
        r matches Ok(v) ==> {
            &&& v.0 as int % align as int == 0
            &&& v.0 <= base
            &&& base - v.0 < align
            &&& v.0 + v.1 == spec_align_up(base + length, align as int)
        },
        r is Err ==> r == Err::<(u64, u64), EfiError>(EfiError::InvalidParameter),
{
    if !is_power_of_two(align) {
        return Err(EfiError::InvalidParameter);
    }
    let aligned_end = match align_up(base + length, align) {
        Ok(v) => v,
        Err(e) => {
            return Err(e);
        },
    };
    let aligned_base = match align_down(base, align) {
        Ok(v) => v,
        Err(e) => {
            return Err(e);
        },
    };
    Ok((aligned_base, aligned_end - aligned_base))
}

/// A 64-bit mask with only bit `n` set.
pub fn bit_u64(n: u64) -> (r: u64)
    requires
        n < 64,
    ensures
        r == (1u64 << n),
{
    1u64 << n
}

/// An 8-bit mask with only bit `n` set.
pub fn bit_u8(n: u8) -> (r: u8)
    requires
        n < 8,
    ensures
        r == (1u8 << n),
{
    1u8 << n
}

/// A 16-bit mask with only bit `n` set.
pub fn bit_u16(n: u16) -> (r: u16)
    requires
        n < 16,
    ensures
        r == (1u16 << n),
{
    1u16 << n
}

/// A 32-bit mask with only bit `n` set.
pub fn bit_u32(n: u32) -> (r: u32)
    requires
        n < 32,
    ensures
        r == (1u32 << n),
{
    1u32 << n
}

/// Packs one byte-sized character into a 16-bit signature.
pub fn sig16_1(a: char) -> (r: u16)
    requires
        (a as u32) < 0x100,
    ensures
        r == (a as u32),
{
    (a as u32) as u16
}

/// Packs two byte-sized characters into a 16-bit signature, low byte first.
pub fn sig16_2(a: char, b: char) -> (r: u16)
    requires
        (a as u32) < 0x100,
        (b as u32) < 0x100,
    ensures
        r == (a as u32) + (b as u32) * 0x100,
{
    ((a as u32) + (b as u32) * 0x100) as u16
}

/// Packs three byte-sized characters into a 32-bit signature, low byte first.
pub fn sig32_3(a: char, b: char, c: char) -> (r: u32)
    requires
        (a as u32) < 0x100,
        (b as u32) < 0x100,
        (c as u32) < 0x100,
    ensures
        r == (a as u32) + (b as u32) * 0x100 + (c as u32) * 0x10000,
{
    (a as u32) + (b as u32) * 0x100 + (c as u32) * 0x10000
}

/// Packs four byte-sized characters into a 32-bit signature, low byte first.
pub fn sig32_4(a: char, b: char, c: char, d: char) -> (r: u32)
    requires
        (a as u32) < 0x100,
        (b as u32) < 0x100,
        (c as u32) < 0x100,
        (d as u32) < 0x100,
    ensures
        r == (a as u32) + (b as u32) * 0x100 + (c as u32) * 0x10000 + (d as u32) * 0x1000000,
{
    (a as u32) + (b as u32) * 0x100 + (c as u32) * 0x10000 + (d as u32) * 0x1000000
}

/// Packs five byte-sized characters into a 64-bit signature, low byte first.
pub fn sig64_5(a: char, b: char, c: char, d: char, e: char) -> (r: u64)
    requires
        (a as u32) < 0x100,
        (b as u32) < 0x100,
        (c as u32) < 0x100,
        (d as u32) < 0x100,
        (e as u32) < 0x100,
    ensures
        r == (a as u32) + (b as u32) * 0x100 + (c as u32) * 0x10000 + (d as u32) * 0x1000000 + (e as u32) * 0x100000000u64,
{
    (a as u32) as u64 + (b as u32) as u64 * 0x100 + (c as u32) as u64 * 0x10000 + (d as u32) as u64
        * 0x1000000 + (e as u32) as u64 * 0x100000000
}

/// Packs six byte-sized characters into a 64-bit signature, low byte first.
pub fn sig64_6(a: char, b: char, c: char, d: char, e: char, f: char) -> (r: u64)
    requires
        (a as u32) < 0x100,
        (b as u32) < 0x100,
        (c as u32) < 0x100,
        (d as u32) < 0x100,
        (e as u32) < 0x100,
        (f as u32) < 0x100,
    ensures
        r == (a as u32) + (b as u32) * 0x100 + (c as u32) * 0x10000 + (d as u32) * 0x1000000 + (e as u32) * 0x100000000u64 + (f as u32) * 0x10000000000u64,
{
    (a as u32) as u64 + (b as u32) as u64 * 0x100 + (c as u32) as u64 * 0x10000 + (d as u32) as u64
        * 0x1000000 + (e as u32) as u64 * 0x100000000 + (f as u32) as u64 * 0x10000000000
}

/// Packs seven byte-sized characters into a 64-bit signature, low byte first.
pub fn sig64_7(a: char, b: char, c: char, d: char, e: char, f: char, g: char) -> (r: u64)
    requires
        (a as u32) < 0x100,
        (b as u32) < 0x100,
        (c as u32) < 0x100,
        (d as u32) < 0x100,
        (e as u32) < 0x100,
        (f as u32) < 0x100,
        (g as u32) < 0x100,
    ensures
        r == (a as u32) + (b as u32) * 0x100 + (c as u32) * 0x10000 + (d as u32) * 0x1000000 + (e as u32) * 0x100000000u64 + (f as u32) * 0x10000000000u64 + (g as u32) * 0x1000000000000u64,
{
    (a as u32) as u64 + (b as u32) as u64 * 0x100 + (c as u32) as u64 * 0x10000 + (d as u32) as u64
        * 0x1000000 + (e as u32) as u64 * 0x100000000 + (f as u32) as u64 * 0x10000000000 + (
    g as u32) as u64 * 0x1000000000000
}

/// Packs eight byte-sized characters into a 64-bit signature, low byte first.
pub fn sig64_8(a: char, b: char, c: char, d: char, e: char, f: char, g: char, h: char) -> (r: u64)
    requires
        (a as u32) < 0x100,
        (b as u32) < 0x100,
        (c as u32) < 0x100,
        (d as u32) < 0x100,
        (e as u32) < 0x100,
        (f as u32) < 0x100,
        (g as u32) < 0x100,
        (h as u32) < 0x100,
    ensures
        r == (a as u32) + (b as u32) * 0x100 + (c as u32) * 0x10000 + (d as u32) * 0x1000000 + (e as u32) * 0x100000000u64 + (f as u32) * 0x10000000000u64 + (g as u32) * 0x1000000000000u64 + (h as u32) * 0x100000000000000u64,
{
    (a as u32) as u64 + (b as u32) as u64 * 0x100 + (c as u32) as u64 * 0x10000 + (d as u32) as u64
        * 0x1000000 + (e as u32) as u64 * 0x100000000 + (f as u32) as u64 * 0x10000000000 + (
    g as u32) as u64 * 0x1000000000000 + (h as u32) as u64 * 0x100000000000000
}

/// A 128-bit mask with only bit `n` set.
pub fn bit_u128(n: u32) -> (r: u128)
    requires
        n < 128,
    ensures
        r == (1u128 << n),
{
    1u128 << n
}

} // verus!
