use pixel_contrib::integer::IntegerTrait;
use pixel_contrib::positions::{CompressedPositions, CompressedPositionsRaw, NumBits};
use pixel_contrib::quantization::{reduce_accuracy_u16, reduce_accuracy_uvec16, reduce_lower_bits};

/// The number of significant bits of the given value.
fn max_bit(x: u16) -> usize {
    let mut result = 0;
    let mut x = x;
    while x > 0 {
        x >>= 1;
        result += 1;
    }
    result
}

#[test]
fn reduce_accuracy_removes_lower_bits() {
    assert_eq!(reduce_accuracy_u16(0xffff, 8), 0xff);
    assert_eq!(reduce_accuracy_u16(0x1234, 4), 0x123);
    assert_eq!(reduce_accuracy_u16(0x1234, 0), 0x1234);
    assert_eq!(reduce_accuracy_u16(0xffff, 15), 1);
    assert_eq!(reduce_accuracy_u16(0x7fff, 15), 0);
}

#[test]
fn reduce_accuracy_keeps_requested_precision() {
    for num_bits in 1u16..17u16 {
        for v in [0u16, 1, 0x00ff, 0x7fff, 0x8000, 0xabcd, 0xffff] {
            let q = reduce_accuracy_u16(v, 16 - num_bits);
            assert!(max_bit(q) <= num_bits as usize);
        }
    }
}

#[test]
fn reduce_accuracy_of_vector() {
    let mut v = [0xffffu16, 0x1234, 0x0f0f];
    reduce_accuracy_uvec16(&mut v, 4);
    assert_eq!(v, [0x0fff, 0x0123, 0x00f0]);
}

#[test]
fn reduce_lower_bits_clears_lower_bits() {
    assert_eq!(reduce_lower_bits(0xffu8, 4), 0xf0);
    assert_eq!(reduce_lower_bits(0x1234u16, 8), 0x1200);
    assert_eq!(reduce_lower_bits(0xdead_beefu32, 16), 0xdead_0000);
    assert_eq!(reduce_lower_bits(0x0fusize, 0), 0x0f);
    let once = reduce_lower_bits(0xabcdu16, 5);
    assert_eq!(reduce_lower_bits(once, 5), once);
    assert!(once <= 0xabcd && 0xabcd - once < 32);
}

#[test]
fn integer_trait_conversions() {
    assert_eq!(<u8 as IntegerTrait>::from_u32(0x1ff), 0xff);
    assert_eq!(<u16 as IntegerTrait>::from_u32(0x12345), 0x2345);
    assert_eq!(<u32 as IntegerTrait>::from_u32(0x12345), 0x12345);
    assert_eq!(<usize as IntegerTrait>::from_u32(7), 7);

    assert_eq!(IntegerTrait::to_u32(&200u8), 200);
    assert_eq!(IntegerTrait::to_u32(&60000u16), 60000);
    assert_eq!(IntegerTrait::to_u32(&0x1_0000_0005usize), 5);
    assert_eq!(IntegerTrait::to_usize(&0xffff_ffffu32), 0xffff_ffffusize);

    assert_eq!(<u8 as IntegerTrait>::max_value(), u8::MAX);
    assert_eq!(<u16 as IntegerTrait>::max_value(), u16::MAX);
    assert_eq!(<u32 as IntegerTrait>::min_value(), 0);
    assert_eq!(<usize as IntegerTrait>::zero(), 0);
    assert_eq!(<u8 as IntegerTrait>::num_bits(), 8);
    assert_eq!(<u16 as IntegerTrait>::num_bits(), 16);
    assert_eq!(<u32 as IntegerTrait>::num_bits(), 32);
    assert_eq!(<usize as IntegerTrait>::num_bits(), usize::BITS as usize);
}

#[test]
fn integer_trait_shifts() {
    assert_eq!(IntegerTrait::shr(0xf0u8, 4), 0x0f);
    assert_eq!(IntegerTrait::shl(0x0fu8, 4), 0xf0);
    assert_eq!(IntegerTrait::shl(0xffu8, 4), 0xf0);
    assert_eq!(IntegerTrait::shr(0x8000u16, 15), 1);
    assert_eq!(IntegerTrait::shl(1u32, 31), 0x8000_0000);
    assert_eq!(IntegerTrait::shr(0x100usize, 8), 1);
}

#[test]
fn determine_num_bits_picks_smallest_precision() {
    type Raw = CompressedPositionsRaw<u16, ()>;
    assert!(Raw::determine_num_bits(0) == NumBits::Bit8);
    assert!(Raw::determine_num_bits(8) == NumBits::Bit8);
    assert!(Raw::determine_num_bits(9) == NumBits::Bit16);
    assert!(Raw::determine_num_bits(16) == NumBits::Bit16);
    assert!(Raw::determine_num_bits(17) == NumBits::Bit32);
    assert!(Raw::determine_num_bits(64) == NumBits::Bit32);
    assert_eq!(NumBits::Bit8.bits(), 8);
    assert_eq!(NumBits::Bit16.bits(), 16);
    assert_eq!(NumBits::Bit32.bits(), 32);
    assert!(NumBits::Bit8 < NumBits::Bit16 && NumBits::Bit16 < NumBits::Bit32);
}

#[test]
fn compressed_positions_raw_access() {
    let raw = CompressedPositionsRaw::from_quantized(vec![1u16, 2, 3, 4, 5, 6, 7], "desc");
    assert_eq!(raw.len(), 2);
    assert!(!raw.is_empty());
    assert_eq!(raw.get_quantized_position(0), [1, 2, 3]);
    assert_eq!(raw.get_quantized_position(1), [4, 5, 6]);
    assert_eq!(raw.as_slice(), &[1, 2, 3, 4, 5, 6, 7]);
    assert_eq!(*raw.get_quantization_operator(), "desc");

    let small = CompressedPositionsRaw::from_quantized(vec![9u8, 9], 0u32);
    assert_eq!(small.len(), 0);
    assert!(small.is_empty());
}

#[test]
fn compressed_positions_of_each_precision() {
    let p8 = CompressedPositions::Bit8(CompressedPositionsRaw::from_quantized(vec![0u8; 9], 1));
    let p16 = CompressedPositions::Bit16(CompressedPositionsRaw::from_quantized(vec![0u16; 6], 2));
    let p32 = CompressedPositions::Bit32(CompressedPositionsRaw::from_quantized(Vec::new(), 3));
    assert_eq!(p8.len(), 3);
    assert_eq!(p16.len(), 2);
    assert_eq!(p32.len(), 0);
    assert!(p32.is_empty());
    assert!(!p8.is_empty());
    assert_eq!(*p8.get_de_quantify_descriptor(), 1);
    assert_eq!(*p16.get_de_quantify_descriptor(), 2);
    assert_eq!(*p32.get_de_quantify_descriptor(), 3);
}
