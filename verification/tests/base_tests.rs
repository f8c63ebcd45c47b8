use patina::base::{
    align_down, align_range, align_up, bit_u128, bit_u16, bit_u32, bit_u64, bit_u8,
    is_power_of_two, sig16_1, sig16_2, sig32_3, sig32_4, sig64_5, sig64_8,
};

#[test]
fn test_is_power_of_two() {
    assert!(is_power_of_two(1u64));
    assert!(is_power_of_two(2u64));
    assert!(is_power_of_two(4u64));
    assert!(is_power_of_two(1024u64));
    assert!(!is_power_of_two(0u64));
    assert!(!is_power_of_two(3u64));
    assert!(!is_power_of_two(1023u64));
}

#[test]
fn test_align_down() {
    assert_eq!(align_down(1023u64, 512u64).unwrap(), 512u64);
    assert_eq!(align_down(1024u64, 512u64).unwrap(), 1024u64);
    assert_eq!(align_down(0u64, 512u64).unwrap(), 0u64);
    assert_eq!(align_down(513u64, 512u64).unwrap(), 512u64);
    assert_eq!(align_down(0xFFFFu64, 0x1000u64).unwrap(), 0xF000u64);
    assert_eq!(align_down(0x1000u64, 0x1000u64).unwrap(), 0x1000u64);
    assert!(align_down(100u64, 3u64).is_err()); // not power of two
}

#[test]
fn test_align_up() {
    assert_eq!(align_up(1025u64, 512u64).unwrap(), 1536u64);
    assert_eq!(align_up(1024u64, 512u64).unwrap(), 1024u64);
    assert_eq!(align_up(0u64, 512u64).unwrap(), 0u64);
    assert_eq!(align_up(513u64, 512u64).unwrap(), 1024u64);
    assert_eq!(align_up(0xFFFFu64, 0x1000u64).unwrap(), 0x10000u64);
    assert_eq!(align_up(0x1000u64, 0x1000u64).unwrap(), 0x1000u64);
    assert!(align_up(100u64, 3u64).is_err()); // not power of two
    // Check for overflow
    assert!(align_up(u64::MAX, 2u64).is_err());
}

#[test]
fn test_align_range() {
    let (base, len) = align_range(1023u64, 2048u64, 512u64).unwrap();
    assert_eq!(base, 512u64);
    assert_eq!(len, 2560u64);

    let (base, len) = align_range(0u64, 100u64, 64u64).unwrap();
    assert_eq!(base, 0u64);
    assert_eq!(len, 128u64);

    let (base, len) = align_range(100u64, 100u64, 64u64).unwrap();
    assert_eq!(base, 64u64);
    assert_eq!(len, 192u64);

    assert!(align_range(100u64, 100u64, 3u64).is_err()); // not power of two
}

#[test]
fn test_signature() {
    let test0: u16 = sig16_1('A');
    assert_eq!(test0, 0x0041);

    let test1: u16 = sig16_2('A', '\0');
    assert_eq!(test1, 0x0041);

    let test2: u16 = sig16_2('A', 'B');
    assert_eq!(test2, 0x4241);

    let test3: u32 = sig32_3('A', 'B', 'C');
    assert_eq!(test3, 0x00434241);

    let test4: u32 = sig32_4('A', 'B', 'C', 'D');
    assert_eq!(test4, 0x44434241);

    let test5: u32 = sig32_4('\0', '\0', 'C', 'D');
    assert_eq!(test5, 0x44430000);

    let test6: u64 = sig64_5('A', 'B', 'C', 'D', 'E');
    assert_eq!(test6, 0x0000004544434241);

    let test7: u64 = sig64_8('A', 'B', 'C', 'D', 'E', 'F', 'G', 'H');
    assert_eq!(test7, 0x4847464544434241);
}

#[test]
fn test_bit_macro_simple() {
    assert_eq!(bit_u64(0), 0b1);
    assert_eq!(bit_u64(1), 0b10);
    assert_eq!(bit_u64(2), 0b100);
    assert_eq!(bit_u64(3), 0b1000);
    assert_eq!(bit_u64(4), 0b1_0000);
    assert_eq!(bit_u64(5), 0b10_0000);
    assert_eq!(bit_u64(6), 0b100_0000);
    assert_eq!(bit_u64(7), 0b1000_0000);
    assert_eq!(bit_u64(8), 0b1_0000_0000);
    assert_eq!(bit_u64(9), 0b10_0000_0000);
    assert_eq!(bit_u64(10), 0b100_0000_0000);
    assert_eq!(bit_u64(20), 0b1_0000_0000_0000_0000_0000);
    assert_eq!(bit_u64(30), 0b100_0000_0000_0000_0000_0000_0000_0000u64);
    assert_eq!(bit_u64(63), 0x8000_0000_0000_0000u64);
}

#[test]
fn test_bit_macro_or() {
    let combined = bit_u64(1) | bit_u64(3) | bit_u64(5);
    assert_eq!(combined, 0b101010);

    let combined = bit_u64(0) | bit_u64(2) | bit_u64(4) | bit_u64(6) | bit_u64(8);
    assert_eq!(combined, 0b101010101);
}

#[test]
fn test_bit_with_types_specified_works() {
    let b1: u8 = bit_u8(3);
    assert_eq!(b1, 0b0000_1000u8);

    let b2: u16 = bit_u16(10);
    assert_eq!(b2, 0b0000_0100_0000_0000u16);

    let b3: u32 = bit_u32(20);
    assert_eq!(b3, 0x0010_0000u32);

    let b4: u64 = bit_u64(40);
    assert_eq!(b4, 0x0100_0000_0000u64);

    let b5: u128 = bit_u128(50);
    assert_eq!(b5, 0x0004_0000_0000_0000u128);
}
