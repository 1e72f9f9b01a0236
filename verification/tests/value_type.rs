use crc_rocksoft::primitive::ValueType;

#[test]
fn swap_bits_reverses_the_register() {
    assert_eq!(ValueType::swap_bits(0xA0u8), 0x05u8);
    assert_eq!(ValueType::swap_bits(0xABu8), 0xD5u8);
    assert_eq!(ValueType::swap_bits(0xABCDu16), 0xB3D5u16);
    assert_eq!(ValueType::swap_bits(0xABCD2345u32), 0xA2C4B3D5u32);
    assert_eq!(ValueType::swap_bits(0x0123456789ABCDEFu64), 0xF7B3D591E6A2C480u64);
    assert_eq!(ValueType::swap_bits(1usize), 1usize << (usize::BITS - 1));
    assert_eq!(ValueType::swap_bits(0x04C11DB7u32), 0xEDB88320u32);
}

#[test]
fn swap_bits_twice_gives_the_register_back() {
    for &x in &[0u32, 1, 0x80000000, 0x12345678, 0xFFFFFFFF] {
        assert_eq!(ValueType::swap_bits(ValueType::swap_bits(x)), x);
    }
    for x in 0..=255u8 {
        assert_eq!(ValueType::swap_bits(ValueType::swap_bits(x)), x);
        assert_eq!(ValueType::swap_bits(x), x.reverse_bits());
    }
}

#[test]
fn from_u8_fills_with_zeros() {
    assert_eq!(<u8 as ValueType>::from_u8(0xAB), 0xABu8);
    assert_eq!(<u16 as ValueType>::from_u8(0xAB), 0x00ABu16);
    assert_eq!(<u32 as ValueType>::from_u8(0xAB), 0x000000ABu32);
    assert_eq!(<u64 as ValueType>::from_u8(0xAB), 0xABu64);
    assert_eq!(<usize as ValueType>::from_u8(0xAB), 0xABusize);
    assert_eq!(<u32 as ValueType>::from_u8(0), 0u32);
}

#[test]
fn to_u8_keeps_the_low_byte() {
    assert_eq!(ValueType::to_u8(0xABu8), 0xAB);
    assert_eq!(ValueType::to_u8(0x12ABu16), 0xAB);
    assert_eq!(ValueType::to_u8(0x123456ABu32), 0xAB);
    assert_eq!(ValueType::to_u8(0x0123456789ABCDEFu64), 0xEF);
    assert_eq!(ValueType::to_u8(0x1234usize), 0x34);
    assert_eq!(ValueType::to_u8(0x100u32), 0);
}

#[test]
fn shifts_lose_what_leaves() {
    assert_eq!(ValueType::shl(0x81u8, 1), 0x02u8);
    assert_eq!(ValueType::shr(0x81u8, 1), 0x40u8);
    assert_eq!(ValueType::shl(0x8001u16, 4), 0x0010u16);
    assert_eq!(ValueType::shr(0x8001u16, 4), 0x0800u16);
    assert_eq!(ValueType::shl(0x12345678u32, 8), 0x34567800u32);
    assert_eq!(ValueType::shr(0x12345678u32, 8), 0x00123456u32);
    assert_eq!(ValueType::shl(0x0123456789ABCDEFu64, 56), 0xEF00000000000000u64);
    assert_eq!(ValueType::shr(0x0123456789ABCDEFu64, 56), 0x01u64);
    assert_eq!(ValueType::shl(0x12345678u32, 0), 0x12345678u32);
    assert_eq!(ValueType::shr(0x12345678u32, 0), 0x12345678u32);
    assert_eq!(ValueType::shl(1usize, 4), 16usize);
    assert_eq!(ValueType::shr(16usize, 4), 1usize);
}

#[test]
fn shifts_by_the_width_or_more_leave_zero() {
    assert_eq!(ValueType::shl(0xFFu8, 8), 0u8);
    assert_eq!(ValueType::shr(0xFFu8, 8), 0u8);
    assert_eq!(ValueType::shl(0xFFu8, 7), 0x80u8);
    assert_eq!(ValueType::shr(0xFFu8, 7), 0x01u8);
    assert_eq!(ValueType::shl(0xFFFFu16, 16), 0u16);
    assert_eq!(ValueType::shr(0xFFFFu16, 200), 0u16);
    assert_eq!(ValueType::shl(0xFFFFFFFFu32, 32), 0u32);
    assert_eq!(ValueType::shr(0xFFFFFFFFu32, 33), 0u32);
    assert_eq!(ValueType::shl(0xFFFFFFFFu32, 31), 0x80000000u32);
    assert_eq!(ValueType::shl(u64::MAX, 64), 0u64);
    assert_eq!(ValueType::shr(u64::MAX, 255), 0u64);
    assert_eq!(ValueType::shr(u64::MAX, 63), 1u64);
    assert_eq!(ValueType::shl(usize::MAX, usize::BITS as u8), 0usize);
    assert_eq!(ValueType::shr(usize::MAX, usize::BITS as u8), 0usize);
}

#[test]
fn bitwise_operations() {
    assert_eq!(ValueType::not(0x0Fu8), 0xF0u8);
    assert_eq!(ValueType::not(0u16), 0xFFFFu16);
    assert_eq!(ValueType::not(0x12345678u32), 0xEDCBA987u32);
    assert_eq!(ValueType::not(0u64), u64::MAX);
    assert_eq!(ValueType::not(0usize), usize::MAX);
    assert_eq!(ValueType::xor(0x0Fu8, 0x3Cu8), 0x33u8);
    assert_eq!(ValueType::xor(0xFF00u16, 0x0FF0u16), 0xF0F0u16);
    assert_eq!(ValueType::xor(0x12345678u32, 0xFFFFFFFFu32), 0xEDCBA987u32);
    assert_eq!(ValueType::xor(0x0123456789ABCDEFu64, 0x0123456789ABCDEFu64), 0u64);
    assert_eq!(ValueType::xor(5usize, 3usize), 6usize);
    assert_eq!(ValueType::and(0x0Fu8, 0x3Cu8), 0x0Cu8);
    assert_eq!(ValueType::and(0xFF00u16, 0x0FF0u16), 0x0F00u16);
    assert_eq!(ValueType::and(0x12345678u32, 0x0000FFFFu32), 0x00005678u32);
    assert_eq!(ValueType::and(u64::MAX, 0x8000000000000000u64), 0x8000000000000000u64);
    assert_eq!(ValueType::and(5usize, 3usize), 1usize);
}

#[test]
fn equality() {
    assert!(ValueType::equals(0x12u8, 0x12u8));
    assert!(!ValueType::equals(0x12u8, 0x13u8));
    assert!(ValueType::equals(0x1234u16, 0x1234u16));
    assert!(!ValueType::equals(0x1234u16, 0x9234u16));
    assert!(ValueType::equals(0u32, 0u32));
    assert!(!ValueType::equals(0u32, 0x80000000u32));
    assert!(ValueType::equals(u64::MAX, u64::MAX));
    assert!(!ValueType::equals(u64::MAX, u64::MAX - 1));
    assert!(ValueType::equals(7usize, 7usize));
    assert!(!ValueType::equals(7usize, 8usize));
}

#[test]
fn top_bit_mask_from_the_operations() {
    // The mask of the bit that leaves a register first when it moves left.
    assert_eq!(ValueType::not(ValueType::shr(ValueType::not(0u8), 1)), 0x80u8);
    assert_eq!(ValueType::not(ValueType::shr(ValueType::not(0u16), 1)), 0x8000u16);
    assert_eq!(ValueType::not(ValueType::shr(ValueType::not(0u32), 1)), 0x80000000u32);
    assert_eq!(ValueType::not(ValueType::shr(ValueType::not(0u64), 1)), 1u64 << 63);
}
