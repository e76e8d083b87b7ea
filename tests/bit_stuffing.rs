use network_sim::bit::Bit;
use network_sim::bit_string::BitString;
use network_sim::data_link_layer::bit_stuffing::{
    prepare_bits, receive_bits, stuff_bits, surround_flags, unstuff_bits, FLAG_SEQUECE,
};
use network_sim::rand::XorShift;

fn bits(values: &[u8]) -> BitString {
    let v: Vec<Bit> = values
        .iter()
        .map(|&b| if b == 1 { Bit::On } else { Bit::Off })
        .collect();
    BitString::from_bits(&v)
}

fn generate_random_data(seed: u128, n: usize) -> Vec<u8> {
    let mut rand = XorShift::new(seed);
    (0..n)
        .map(|_| (rand.next_int() & u8::MAX as u128) as u8)
        .collect()
}

#[test]
fn surround_flags_test() {
    let bs = BitString::from_u8(0b0011_1100u8);

    let bs = surround_flags(bs);

    assert_eq!(bs.get_u8(0), FLAG_SEQUECE);
    assert_eq!(bs.get_u8(bs.len() - 8), FLAG_SEQUECE);
}

#[test]
fn unstuff_bits_test() {
    let expected = bits(&[0, 0, 1, 1, 0, 1, 1, 1, 1, 1, 1, 1, 1, 1, 0, 0]);
    let bs = bits(&[0, 0, 1, 1, 0, 1, 1, 1, 1, 1, 0, 1, 1, 1, 1, 0, 0]);

    let bs = unstuff_bits(bs);

    assert_eq!(expected, bs);
}

#[test]
fn stuff_bits_test() {
    let bs = bits(&[0, 0, 1, 1, 0, 1, 1, 1, 1, 1, 1, 1, 1, 1, 0, 0]);

    let bs = stuff_bits(bs);
    let expected = bits(&[0, 0, 1, 1, 0, 1, 1, 1, 1, 1, 0, 1, 1, 1, 1, 0, 0]);

    assert_eq!(expected, bs);
}

#[test]
fn stuffing_fuzz() {
    for seed in 0..=1024 {
        let bs = BitString::from_u8_slice(&generate_random_data(seed, 125));
        let bs_clone = bs.clone();

        let stuffed = stuff_bits(bs);
        let unstuffed = unstuff_bits(stuffed.clone());

        assert_eq!(bs_clone, unstuffed, "Failed with seed {seed}");
    }
}

#[test]
fn stuffing_after_trailing_run() {
    let bs = bits(&[1, 1, 1, 1, 1]);

    let stuffed = stuff_bits(bs.clone());

    assert_eq!(stuffed, bits(&[1, 1, 1, 1, 1, 0]));
    assert_eq!(unstuff_bits(stuffed), bs);
}

#[test]
fn stuffing_all_ones_round_trip() {
    let bs = BitString::with_ones(23);

    let stuffed = stuff_bits(bs.clone());

    assert_eq!(stuffed.len(), 27);
    assert_eq!(unstuff_bits(stuffed), bs);
}

#[test]
fn prepared_has_flags_on_both_ends() {
    let data = BitString::from_u16(0xFFFF);

    let prepared = prepare_bits(data);

    assert_eq!(prepared.get_u8(0), FLAG_SEQUECE);
    assert_eq!(prepared.get_u8(prepared.len() - 8), FLAG_SEQUECE);
    assert_eq!(prepared.len(), 16 + 16 + 3);
}

#[test]
fn prepared_empty_is_two_flags() {
    let prepared = prepare_bits(BitString::new());

    assert_eq!(prepared, BitString::from_u16(0x7E7E));
}

#[test]
fn receive_undoes_prepare() {
    for seed in 1..50u128 {
        let data = BitString::from_u8_slice(&generate_random_data(seed, 9));
        let received = receive_bits(prepare_bits(data.clone()));
        assert_eq!(received, Some(data));
    }
}

#[test]
fn receive_refuses_unflagged() {
    assert_eq!(receive_bits(BitString::from_u8(0x7E)), None);
    assert_eq!(receive_bits(BitString::from_u32(0x7E00_007F)), None);
    assert_eq!(
        receive_bits(BitString::from_u32(0x7EF8_107E)),
        Some(bits(&[1, 1, 1, 1, 1, 0, 0, 0, 0, 0, 1, 0, 0, 0, 0]))
    );
}
