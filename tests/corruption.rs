use network_sim::bit_string::BitString;
use network_sim::corruption_type::Corruption;
use network_sim::rand::XorShift;

const RANDOM_TEST_CYCLES: usize = 100usize;
const DEFAULT_DATA: u8 = 0b0011_1010;

fn bits_flipped(left: &BitString, right: &BitString) -> u32 {
    assert_eq!(left.len(), right.len());

    let mut difference: u32 = 0;
    for i in 0..left.len() {
        difference += u32::from(left[i] ^ right[i]);
    }

    difference
}

fn get_data(data: u8) -> BitString {
    let mut bs = BitString::new();
    bs.append_u8(data);
    bs
}

fn get_data_default() -> BitString {
    get_data(DEFAULT_DATA)
}

#[test]
fn test_no_flip() {
    let data = get_data_default();
    let data_copy = data.clone();

    let data = Corruption::no_corruption(data);

    assert_eq!(bits_flipped(&data, &data_copy), 0);
}

#[test]
fn test_bit_flip() {
    let mut rand = XorShift::new(69);
    let data = get_data_default();
    let data_copy = data.clone();

    let data = Corruption::one_bit_flip(&mut rand, data);

    assert!(bits_flipped(&data, &data_copy) == 1);
}

#[test]
fn test_mutli_bit_flip_even_byte() {
    let mut rand = XorShift::new(69);
    let data = get_data_default();
    let data_copy = data.clone();

    let data = Corruption::multi_bit_flip_even(&mut rand, 100, data);

    assert_eq!(bits_flipped(&data, &data_copy) % 2, 0);
}

#[test]
fn test_mutli_bit_flip_odd_byte() {
    let mut rand = XorShift::new(69);
    let data = get_data_default();
    let data_copy = data.clone();

    let data = Corruption::multi_bit_flip_odd(&mut rand, 100, data);

    assert_ne!(bits_flipped(&data, &data_copy) % 2, 0);
}

#[test]
fn test_burst_flip() {
    let mut rand = XorShift::new(69);
    let data = get_data_default();
    let data_copy = data.clone();

    let data = Corruption::burst_flip(&mut rand, data);

    assert!(bits_flipped(&data, &data_copy) >= 4);
    assert!(bits_flipped(&data, &data_copy) <= 8);
}

#[test]
fn test_burst_flip_short() {
    let mut rand = XorShift::new(69);
    let mut data = BitString::new();
    data.append_u8(0b0011_0011);

    let data_copy = data.clone();

    let data = Corruption::burst_flip(&mut rand, data);

    assert!(bits_flipped(&data, &data_copy) >= 4);
    assert!(bits_flipped(&data, &data_copy) <= 8);
}

#[test]
fn assert_random_does_not_panic_on_use() {
    let mut seed_gen = XorShift::new(0);

    for _ in 0..RANDOM_TEST_CYCLES {
        let rand1 = XorShift::new(seed_gen.next_int());
        let rand2 = XorShift::new(seed_gen.next_int());
        Corruption::corrupt(Corruption::Random(rand1), get_data_default());
        Corruption::corrupt(Corruption::RandomCorruption(rand2), get_data_default());
    }
}

#[test]
fn full_chance_flips_every_bit() {
    let mut rand = XorShift::new(12345);
    let data = BitString::from_u16(0x1234);

    let flipped = Corruption::multi_bit_flip_even(&mut rand, 100, data.clone());

    assert_eq!(bits_flipped(&flipped, &data), 16);
}

#[test]
fn zero_chance_changes_nothing() {
    let mut rand = XorShift::new(12345);
    let data = BitString::from_u16(0x1234);

    let same = Corruption::multi_bit_flip_even(&mut rand, 0, data.clone());

    assert_eq!(same, data);
    assert_eq!(rand, XorShift::new(12345));
}

#[test]
fn odd_flip_with_zero_chance_flips_one_bit() {
    let mut rand = XorShift::new(7);
    let data = BitString::from_u16(0x1234);

    let flipped = Corruption::multi_bit_flip_odd(&mut rand, 0, data.clone());

    assert_eq!(bits_flipped(&flipped, &data), 1);
}

#[test]
fn burst_is_contiguous_and_bounded() {
    for seed in 1..200u128 {
        let mut rand = XorShift::new(seed);
        let data = BitString::with_zeroes(100);

        let flipped = Corruption::burst_flip(&mut rand, data);

        let ones: Vec<usize> = (0..100).filter(|&i| flipped[i] == network_sim::bit::Bit::On).collect();
        assert!(ones.len() >= 4 && ones.len() <= 16);
        assert_eq!(ones[ones.len() - 1] - ones[0] + 1, ones.len());
    }
}

#[test]
fn corruption_is_deterministic_from_seed() {
    let data = BitString::from_u32(0xDEAD_BEEF);
    let mut first = Corruption::RandomCorruption(XorShift::new(99));
    let mut second = Corruption::RandomCorruption(XorShift::new(99));

    for _ in 0..20 {
        let a = first.corrupt_borrow(data.clone());
        let b = second.corrupt_borrow(data.clone());
        assert_eq!(a, b);
        assert_eq!(a.len(), data.len());
    }
}

#[test]
fn xorshift_step() {
    let mut rand = XorShift::new(1);

    let n = rand.next_int();
    let mut s: u128 = 1;
    s ^= s << 23;
    s ^= s >> 17;
    s ^= s << 26;
    assert_eq!(n, s);

    assert_eq!(rand.next_int_bound(5, 5), 5);
    let b = rand.next_int_bound(10, 20);
    assert!((10..20).contains(&b));
}
