use network_sim::bit::Bit;
use network_sim::bit_string::{BitString, BoundsError, NotWordAligned};

const BYTE: u8 = 0b1100_0011;
const BIT_ON: Bit = Bit::On;
const BIT_OFF: Bit = Bit::Off;
const U128: u128 = 0x1;

fn bits(values: &[u8]) -> BitString {
    let v: Vec<Bit> = values
        .iter()
        .map(|&b| match b {
            0 => Bit::Off,
            1 => Bit::On,
            _ => panic!("not a bit"),
        })
        .collect();
    BitString::from_bits(&v)
}

#[test]
fn test_macro() {
    let bit_string_1 = bits(&[1, 0, 1, 0, 1, 0, 1, 0]);
    let bit_string = BitString::from_u8(0b1010_1010u8);

    assert_eq!(bit_string_1, bit_string);
}

#[test]
fn shift_right() {
    let mut bit_string = BitString::from_u8(0b1010_1010u8);

    bit_string >>= 1;

    assert_eq!(bit_string.get_u8(0), 0b0101_0101u8);
}

#[test]
fn shift_right_overflow() {
    let mut bit_string = BitString::from_u8(0b1010_1010u8);

    bit_string >>= 10;

    assert_eq!(bit_string.get_u8(0), 0b0000_0000u8);
    assert_eq!(bit_string.len(), 10);
}

#[test]
fn shift_left() {
    let mut bit_string = BitString::from_u8(0b1010_1010u8);

    bit_string <<= 1;

    assert_eq!(bit_string.get_u8(0), 0b0101_0100u8);
}

#[test]
fn shift_left_overflow() {
    let mut bit_string = BitString::from_u8(0b1010_1010u8);

    bit_string <<= 10;

    assert_eq!(bit_string.get_u8(0), 0b0000_0000u8);
}

#[test]
fn append_and_get() {
    let mut bit_string = BitString::new();

    bit_string.append_u128(U128);

    let got = bit_string.get_u128(0);

    let mut new_bit_string = BitString::new();

    new_bit_string.append_u128(got);

    assert_eq!(bit_string, new_bit_string);
    assert_eq!(bit_string.get_u128(0), U128);
}

#[test]
fn assert_equals() {
    let mut bit_string1 = BitString::new();
    let mut bit_string2 = BitString::new();

    bit_string1.append_u128(U128);
    bit_string2.append_u128(U128);

    assert_eq!(bit_string1, bit_string2);
}

#[test]
fn append_byte() {
    let mut bit_string = BitString::new();

    bit_string.append_u8(BYTE);

    assert_eq!(bit_string.get_u8(0), BYTE)
}

#[test]
fn append_u8s() {
    let mut bit_string = BitString::new();

    bit_string.append_u8(BYTE);
    bit_string.append_u8(!BYTE);

    assert_eq!(bit_string.get_u8(0), BYTE);
    assert_eq!(bit_string.get_u8(8), !BYTE);
}

#[test]
fn append_bit_on() {
    let mut bit_string = BitString::new();

    bit_string.append_bit(BIT_ON);

    assert_eq!(bit_string.get_bit(0), &Bit::On)
}

#[test]
fn append_bit_off() {
    let mut bit_string = BitString::new();

    bit_string.append_bit(BIT_OFF);

    assert_eq!(bit_string.get_bit(0), &Bit::Off)
}

#[test]
fn append_bits() {
    let mut bit_string = BitString::new();

    bit_string.append_bit(BIT_ON);
    bit_string.append_bit(BIT_OFF);
    bit_string.append_bit(BIT_ON);

    assert_eq!(bit_string.get_bit(0), &Bit::On);
    assert_eq!(bit_string.get_bit(1), &Bit::Off);
    assert_eq!(bit_string.get_bit(2), &Bit::On);
}

#[test]
fn append_u8_then_bits() {
    let mut bit_string = BitString::new();

    bit_string.append_u8(BYTE);

    bit_string.append_bit(BIT_ON);
    bit_string.append_bit(BIT_OFF);
    bit_string.append_bit(BIT_ON);

    assert_eq!(bit_string.get_u8(0), BYTE);
    assert_eq!(bit_string.get_u8(8), 0b1010_0000);
}

#[test]
fn append_bits_then_byte() {
    let mut bit_string = BitString::new();

    bit_string.append_bit(BIT_ON);
    bit_string.append_bit(BIT_OFF);
    bit_string.append_bit(BIT_ON);
    bit_string.append_bit(BIT_OFF);

    bit_string.append_u8(BYTE);

    assert_eq!(bit_string.get_u16(0), 0b1010_1100_0011_0000);
}

#[test]
fn set_u8() {
    let mut bit_string = BitString::new();

    bit_string.append_u8(0b0000_0000u8);

    bit_string.set_u8(0, 0b1111_1111u8);

    assert_eq!(bit_string.get_u8(0), 0b1111_1111u8);
}

#[test]
fn set_exact_u8() {
    let mut bit_string = BitString::new();

    bit_string.append_u8(0b0000_0000u8);

    assert!(bit_string.set_exact_u8(0, 0b1111_1111u8).is_ok());
    assert!(bit_string.set_exact_u8(1, 0b1111_1111u8).is_err());

    assert_eq!(bit_string.get_u8(0), 0b1111_1111u8);
}

#[test]
fn set_bit_long() {
    let mut bs = BitString::from_u32_slice(&[u32::MAX, u32::MAX, 0, u32::MAX]);

    bs.set_u32(64, u32::MAX);

    for bit in bs.into_vec() {
        assert_eq!(bit, Bit::On);
    }
}

#[test]
fn as_vec() {
    let bs = BitString::from_u8(0b1100_1010u8);

    let vec = bs.as_vec_exact_u8();

    assert_eq!(vec, vec![0b1100_1010u8])
}

#[test]
fn as_vec_multi() {
    let bs = BitString::from_u16(0b1100_0011_0011_1100u16);

    let vec = bs.as_vec_exact_u8();

    assert_eq!(vec, vec![0b1100_0011u8, 0b0011_1100u8]);
}

#[test]
fn test_insert_u8() {
    let mut bs = BitString::from_u8(0b1111_1111u8);

    bs.insert_u8(4, 0b0000_0000u8);

    let byte_vec = bs.as_vec_exact_u8();
    let expected = vec![0b1111_0000u8, 0b0000_1111u8];

    assert_eq!(byte_vec, expected);
}

#[test]
fn bs_equals_vec() {
    let bs = BitString::from_u16(0b0011_1100_1101_0010u16);

    let vec = bs.as_vec_exact_u8();

    let bs_from_vec = BitString::from_u8_slice(&vec);

    assert_eq!(bs, bs_from_vec);
}

#[test]
fn bs_equals_vec_long() {
    let bs = BitString::from_u32(0b0011_1100_1101_0010_0011_1010_0101_1100u32);

    let vec = bs.as_vec_exact_u8();

    let bs_from_vec = BitString::from_u8_slice(&vec);

    assert_eq!(bs, bs_from_vec);
}

#[test]
fn append_zero_test() {
    let mut bs = BitString::new();

    bs.append_u16(0);

    assert!(bs.len() == 16);

    bs.append_u16(0);

    assert!(bs.len() == 32);

    assert!(bs.get_u32(0) == 0);
}

#[test]
fn append_zero_and_insert_test() {
    let mut bs = BitString::new();

    bs.append_u16(0);

    assert!(bs.len() == 16);

    bs.append_u16(0);

    assert!(bs.len() == 32);

    bs.append_u16(0);

    assert!(bs.len() == 48);

    bs.set_u16(16, u16::MAX);

    assert!(bs.len() == 48);

    assert!(bs.get_u16(16) == u16::MAX);
    assert!(bs.get_u16(0) == 0);
    assert!(bs.get_u16(32) == 0);
}

#[test]
fn get_and_set1() {
    let mut bs = BitString::from_u64(u64::MAX);

    const TEST_DATA: u16 = 0b1010_0000_0101_1111u16;

    assert_eq!(bs.get_u16(0), u16::MAX);
    assert_eq!(bs.get_u16(16), u16::MAX);
    assert_eq!(bs.get_u16(16), u16::MAX);
    bs.set_u16(16, TEST_DATA);
    assert_eq!(bs.get_u16(0), u16::MAX);
    assert_eq!(
        BitString::from_u16(bs.get_u16(16)),
        BitString::from_u16(TEST_DATA)
    );
    assert_eq!(bs.get_u16(32), u16::MAX);
}

#[test]
fn get_and_set2() {
    let mut bs = BitString::from_u64(u64::MAX);

    const TEST_DATA: u16 = 0b1010_1010_1010_1010u16;

    assert_eq!(bs.get_u16(0), u16::MAX);
    assert_eq!(bs.get_u16(16), u16::MAX);
    assert_eq!(bs.get_u16(16), u16::MAX);
    bs.set_u16(16, TEST_DATA);
    assert_eq!(bs.get_u16(0), u16::MAX);
    assert_eq!(
        BitString::from_u16(bs.get_u16(16)),
        BitString::from_u16(TEST_DATA)
    );
    assert_eq!(bs.get_u16(32), u16::MAX);
}

#[test]
fn test_xor() {
    let bs = BitString::from_u16(0b0000_1111_1111_0000u16);
    let other = BitString::from_u8(0b1111_1111u8);

    assert_eq!(
        BitString::from_u16(0b1111_0000_1111_0000u16),
        bs.xor_on_index(&other, 0),
        "Failed on start xor"
    );

    assert_eq!(
        BitString::from_u16(0b0000_0000_0000_0000u16),
        bs.xor_on_index(&other, 4),
        "Failed on middle xor"
    );

    assert_eq!(
        BitString::from_u16(0b0000_1111_0000_1111u16),
        bs.xor_on_index(&other, 8),
        "Failed on end xor"
    );
}

#[test]
fn remove_last() {
    let mut bs = bits(&[1, 1, 1, 1, 0, 0]);

    let rem = bs.remove_last_len(2);

    assert_eq!(2, rem.len());
    assert_eq!(bits(&[0, 0]), rem);
    assert_eq!(bits(&[1, 1, 1, 1]), bs);
}

#[test]
fn remove_last_order() {
    let mut bs = bits(&[1, 0]);

    let rem = bs.remove_last_len(2);

    assert_eq!(2, rem.len());
    assert!(bs.is_empty());

    assert_eq!(bits(&[1, 0]), rem);
}

#[test]
fn test_set_bits() {
    let mut bs = bits(&[0, 0]);

    bs.set_bits(0, &bits(&[1, 1]));

    assert_eq!(bits(&[1, 1]), bs);

    bs = bits(&[0, 0, 0]);
    bs.set_bits(1, &bits(&[1, 0]));

    assert_eq!(bits(&[0, 1, 0]), bs);
}

#[test]
fn get_past_end_reads_zeroes() {
    let bs = bits(&[1, 1, 1]);

    assert_eq!(bs.get_u8(0), 0b1110_0000);
    assert_eq!(bs.get_u8(2), 0b1000_0000);
    assert_eq!(bs.get_u8(10), 0);
}

#[test]
fn get_exact_refuses_past_end() {
    let bs = BitString::from_u16(0xABCD);

    assert_eq!(bs.get_exact_u8(8), Ok(0xCD));
    assert_eq!(
        bs.get_exact_u8(9),
        Err(BoundsError {
            index: 9,
            width: 8,
            len: 16
        })
    );
}

#[test]
fn set_past_end_is_cut_off() {
    let mut bs = BitString::with_zeroes(10);

    bs.set_u8(6, 0xFF);

    assert_eq!(bs, bits(&[0, 0, 0, 0, 0, 0, 1, 1, 1, 1]));
}

#[test]
fn padded_words() {
    let bs = bits(&[1, 0, 1, 1, 0, 0, 1, 1, 1, 1]);

    assert_eq!(bs.as_vec_with_padding_u8(), vec![0b1011_0011, 0b1100_0000]);
    assert_eq!(
        bs.try_as_vec_exact_u8(),
        Err(NotWordAligned { len: 10, width: 8 })
    );
    assert_eq!(bs.as_vec_with_padding_u16(), vec![0b1011_0011_1100_0000]);
}

#[test]
fn flip_ranges() {
    let mut bs = BitString::with_zeroes(6);

    bs.flip_bits(4, 5);
    assert_eq!(bs, bits(&[0, 0, 0, 0, 1, 1]));

    assert!(bs.flip_bits_exact(2, 5).is_err());
    assert_eq!(bs, bits(&[0, 0, 0, 0, 1, 1]));

    assert!(bs.flip_bits_exact(1, 3).is_ok());
    assert_eq!(bs, bits(&[0, 1, 1, 1, 1, 1]));

    bs.flip_bit(0);
    assert_eq!(bs, BitString::with_ones(6));
}

#[test]
fn reverse_and_stringify() {
    let mut bs = bits(&[1, 1, 0, 1, 0]);

    bs.reverse();

    assert_eq!(bs.stringify(), "01011");
    assert_eq!(bs[1], Bit::On);
    assert_eq!(bs[2], Bit::Off);
}

#[test]
fn insert_remove_and_prepend() {
    let mut bs = bits(&[1, 0, 1]);

    bs.insert_bit(1, Bit::On);
    assert_eq!(bs, bits(&[1, 1, 0, 1]));

    assert_eq!(bs.remove_bit(2), Bit::Off);
    assert_eq!(bs, bits(&[1, 1, 1]));

    bs.prepend_bit(Bit::Off);
    bs.prepend_u8(0x81);
    assert_eq!(bs, bits(&[1, 0, 0, 0, 0, 0, 0, 1, 0, 1, 1, 1]));

    let middle = bs.remove_len(1, 6);
    assert_eq!(middle, BitString::with_zeroes(6));
    assert_eq!(bs, bits(&[1, 1, 0, 1, 1, 1]));

    assert_eq!(bs.remove_last(), Some(Bit::On));
    assert_eq!(bs.copy_len(3, 10), bits(&[1, 1]));
    assert_eq!(bs.checked_get_bit(9), None);
    assert_eq!(bs.get_last(), Some(&Bit::On));
}

#[test]
fn bit_operations() {
    assert_eq!(Bit::On ^ Bit::On, Bit::Off);
    assert_eq!(Bit::On ^ Bit::Off, Bit::On);
    assert_eq!(Bit::On & Bit::Off, Bit::Off);
    assert_eq!(Bit::Off | Bit::On, Bit::On);
    assert_eq!(!Bit::Off, Bit::On);
    assert_eq!(Bit::from(true), Bit::On);
    assert_eq!(u8::from(Bit::On), 1);
    assert_eq!(u128::from(Bit::Off), 0);
    assert_eq!(Bit::On.stringify(), "1");

    let mut b = Bit::Off;
    b.flip();
    assert_eq!(b, Bit::On);
}
