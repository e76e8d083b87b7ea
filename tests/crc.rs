use network_sim::bit::Bit;
use network_sim::bit_string::BitString;
use network_sim::corruption_type::Corruption;
use network_sim::data_link_layer::crc::{add, binary_division, check_and_remove, CrcError};
use network_sim::rand::XorShift;

fn bits(values: &[u8]) -> BitString {
    let v: Vec<Bit> = values
        .iter()
        .map(|&b| if b == 1 { Bit::On } else { Bit::Off })
        .collect();
    BitString::from_bits(&v)
}

fn gen_data(min_len: u128, max_len: u128, seed: u128) -> BitString {
    let mut rand = XorShift::new(seed);

    let len = rand.next_int_bound(min_len, max_len) as usize;

    let mut bs = BitString::with_capacity(len);
    for _ in 0..len {
        match rand.next_int() % 2 {
            0 => bs.append_bit(Bit::Off),
            _ => bs.append_bit(Bit::On),
        }
    }

    bs
}

fn break_crc(corruption: &mut Corruption, generator: &BitString, valid_crc: BitString) -> bool {
    let invalid_crc = corruption.corrupt_borrow(valid_crc);

    check_and_remove(generator, invalid_crc).is_err()
}

const PERCENTAGE_EXPECTED: f64 = 0.98;
const DATA_MIN: u128 = 1;
const MAX_DATA_LEN: u128 = 100;
const GEN_LEN: u128 = 10;
const CYCLES: u32 = 100_000;

fn check_crc(bs: BitString, gen: BitString, expected: BitString) {
    assert_eq!(expected, binary_division(&bs, &gen));
}

#[test]
fn simple_check() {
    let data = bits(&[1, 1, 0, 1, 0, 0]);
    let generator = bits(&[1, 0, 0]);

    assert!(check_and_remove(&generator, data).is_ok());
}

#[test]
fn small_data() {
    let data = bits(&[0, 1]);
    let generator = bits(&[1, 0, 0, 0]);

    assert_eq!(add(&generator, data), bits(&[0, 1, 0, 0, 0]));
}

#[test]
fn simple_case() {
    let data = bits(&[1, 0, 1, 1, 0]);
    let gen = bits(&[1, 0, 0]);

    let full = add(&gen, data);

    assert_eq!(full, bits(&[1, 0, 1, 1, 0, 0, 0]));
}

#[test]
fn small_gen() {
    let data = bits(&[0, 1, 1, 0]);
    let gen = bits(&[1, 0]);

    let expected = bits(&[0, 1, 1, 0, 0]);

    let with_crc = add(&gen, data);
    assert_eq!(expected, with_crc);

    assert!(check_and_remove(&gen, with_crc).is_ok());
}

#[test]
fn equal_len() {
    let data = bits(&[1, 0, 1]);
    let gen = bits(&[1, 0, 0]);

    let expected = bits(&[1, 0, 1, 0, 0]);

    let made = add(&gen, data);

    assert_eq!(expected, made);
}

#[test]
fn test_make_crc() {
    check_crc(bits(&[0, 1, 1, 0]), bits(&[1, 1]), bits(&[0]));
    check_crc(bits(&[1, 0, 1, 1]), bits(&[1, 0, 1]), bits(&[0, 1]));
}

#[test]
fn broken_crc() {
    let broken_crc = bits(&[1, 1, 0, 1]);
    let gen = bits(&[1, 0]);

    assert!(check_and_remove(&gen, broken_crc).is_err());
}

#[test]
fn crc_fuzz_fail() {
    let mut correctly_detected_errors: u32 = 0;

    let mut rand = XorShift::new(113_241_324);
    let mut corruption = Corruption::RandomCorruption(rand.copy_reset());
    for seed in 1..=CYCLES {
        let seed = u128::from(seed);
        let data = gen_data(DATA_MIN, MAX_DATA_LEN, seed);
        let mut gen = gen_data(GEN_LEN, GEN_LEN, seed << 3);
        gen.prepend_bit(Bit::On);
        let data_clone = data.clone();

        let data_with_crc = add(&gen, data_clone);

        if break_crc(&mut corruption, &gen, data_with_crc.clone()) {
            correctly_detected_errors += 1;
        }
    }

    assert!(
        f64::from(correctly_detected_errors) >= PERCENTAGE_EXPECTED * f64::from(CYCLES),
        "Expected a detection rate of {PERCENTAGE_EXPECTED} but detected {}",
        f64::from(correctly_detected_errors) / f64::from(CYCLES)
    );
}

#[test]
fn crc_fuzz_pass() {
    for seed in 1..=CYCLES {
        let seed = u128::from(seed);
        let data = gen_data(DATA_MIN, MAX_DATA_LEN, seed);
        let mut gen = gen_data(GEN_LEN, GEN_LEN, seed << 3);
        gen.prepend_bit(Bit::On);

        let data_clone = data.clone();

        let data_with_crc = add(&gen, data_clone);

        let data_received = check_and_remove(&gen, data_with_crc);

        assert!(
            data_received.is_ok(),
            "CRC was thought to be incorrect on received data"
        );

        let data_received = data_received.expect("Already asserted");

        assert_eq!(
            data, data_received,
            "Data send and received is not the same"
        );
    }
}

#[test]
fn round_trip_concrete() {
    let gen = bits(&[1, 0, 1, 1]);
    let data = BitString::from_u16(0xBEEF);

    let encoded = add(&gen, data.clone());

    assert_eq!(encoded.len(), 19);
    assert_eq!(check_and_remove(&gen, encoded), Ok(data));
}

#[test]
fn remainder_is_written_into_trailing_bits() {
    // 1101 divided by 11 (x + 1) after appending one zero: parity bit 1
    let gen = bits(&[1, 1]);
    let encoded = add(&gen, bits(&[1, 1, 0, 1]));

    assert_eq!(encoded, bits(&[1, 1, 0, 1, 1]));
}

#[test]
fn single_flip_is_an_integrity_error() {
    let gen = bits(&[1, 0, 1, 1]);
    let mut encoded = add(&gen, BitString::from_u8(0x5A));

    encoded.flip_bit(3);

    assert_eq!(check_and_remove(&gen, encoded), Err(CrcError::Integrity));
}

#[test]
fn too_short_is_truncated() {
    let gen = bits(&[1, 0, 0, 0]);

    assert_eq!(
        check_and_remove(&gen, bits(&[0, 0])),
        Err(CrcError::Truncated)
    );
}

#[test]
fn short_dividend_is_padded_remainder() {
    assert_eq!(
        binary_division(&bits(&[1, 1]), &bits(&[1, 0, 0, 1])),
        bits(&[0, 1, 1])
    );
}

#[test]
fn odd_flips_caught_by_even_weight_generator() {
    let gen = bits(&[1, 1, 0, 0, 1, 1]);
    for seed in 1..300u128 {
        let data = gen_data(1, 60, seed);
        let mut encoded = add(&gen, data);
        let n = encoded.len();
        let mut rand = XorShift::new(seed ^ 0x5555);
        let mut corruption = Corruption::MultiBitFlipOdd(rand.copy_reset(), 30);
        encoded = corruption.corrupt_borrow(encoded);
        assert_eq!(encoded.len(), n);
        assert_eq!(check_and_remove(&gen, encoded), Err(CrcError::Integrity));
    }
}
