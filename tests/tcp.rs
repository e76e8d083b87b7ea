use network_sim::bit_string::BitString;
use network_sim::data_link_layer::frame::tcp::{TCPFrame, TCPFrameBuilder, ACK, SYN};
use network_sim::data_link_layer::frame::Frame;

// Given
const SOURCE_PORT: u16 = 0b1111_1111_1111_1111u16;
const TARGET_PORT: u16 = 0b0000_0000_0000_0000u16;
const ACK_NUM: u32 = 0b1111_0000_1111_0000_1111_0000_1111_0000u32;
const DATA_OFFSET: u8 = 0b0000_1111u8;
const FLAG: u8 = 0b0101_0101u8;
const WINDOW_SIZE: u16 = 0b0011_1100_0011_1100u16;
const URGENT_POINTER: u16 = 0b1100_0011_1100_0011u16;
const OPTIONS: [u32; 10] = [1, 0, 1, 0, 1, 0, 1, 0, 1, 0];

// Assumed
const SEQUENCE_NUM1: u32 = 0b0000_0000_0000_0000_0000_0000_0000_0000u32;
const SEQUENCE_NUM2: u32 = 0b0000_0000_0000_0000_0000_0000_0000_0001u32;

// Hand calculated
const CHECKSUM1: u16 = 0b0010_1101_1100_0011;
const CHECKSUM2: u16 = 0b0010_1101_1100_0010;

// Datapoints
const DATA: [u128; 2] = [0b10110010101110100100101001011011011010010010100101101011101010101001010100101010110111010101010010101001010101110101010010101010u128,
                         0b10011010100101110100100101010010101010110101001010100101111101010101001010101001010100101011001010101101010110010011001100001101u128];

fn builder() -> TCPFrameBuilder {
    TCPFrameBuilder::new()
        .set_source_port(SOURCE_PORT)
        .set_target_port(TARGET_PORT)
        .set_ack_num(ACK_NUM)
        .set_data_offset(DATA_OFFSET)
        .set_flags(FLAG)
        .set_window_size(WINDOW_SIZE)
        .set_urgent_pointer(URGENT_POINTER)
        .set_options(OPTIONS)
}

fn headers() -> Vec<TCPFrame> {
    let data_points = [BitString::new(), BitString::new()];

    builder().build_all(&data_points)
}

fn headers_with_data(data_points: &[BitString]) -> Vec<TCPFrame> {
    builder().build_all(data_points)
}

#[test]
fn basic_header() {
    let headers = headers();

    assert_eq!(headers.len(), 2);

    let header1 = &headers[0];
    assert_eq!(header1.source_port(), SOURCE_PORT, "Failed at source_port");
    assert_eq!(header1.target_port(), TARGET_PORT, "Failed at target_port");
    assert_eq!(
        header1.sequence_num(),
        SEQUENCE_NUM1,
        "Failed at sequence_num1"
    );
    assert_eq!(header1.ack_num(), ACK_NUM, "Failed at ack_num");
    assert_eq!(header1.data_offset(), DATA_OFFSET, "Failed at data_offset");
    assert_eq!(header1.flag_byte(), FLAG, "Failed at flag");
    assert_eq!(header1.window_size(), WINDOW_SIZE, "Failed at window_size");
    assert_eq!(header1.checksum(), CHECKSUM1, "Failed at checksum1");
    assert_eq!(
        header1.urgent_pointer(),
        URGENT_POINTER,
        "Failed at urgent_pointer"
    );
    for i in 0..10 {
        assert_eq!(header1.options()[i], OPTIONS[i], "Failed at options[{i}]");
    }

    let header2 = &headers[1];
    assert_eq!(header2.source_port(), SOURCE_PORT, "Failed at source_port");
    assert_eq!(header2.target_port(), TARGET_PORT, "Failed at target_port");
    assert_eq!(
        header2.sequence_num(),
        SEQUENCE_NUM2,
        "Failed at sequence_num2"
    );
    assert_eq!(header2.ack_num(), ACK_NUM, "Failed at ack_num");
    assert_eq!(header2.data_offset(), DATA_OFFSET, "Failed at data_offset");
    assert_eq!(header2.flag_byte(), FLAG, "Failed at flag");
    assert_eq!(header2.window_size(), WINDOW_SIZE, "Failed at window_size");
    assert_eq!(header2.checksum(), CHECKSUM2, "Failed at checksum2");
    assert_eq!(
        header2.urgent_pointer(),
        URGENT_POINTER,
        "Failed at urgent_pointer"
    );
    for i in 0..10 {
        assert_eq!(header2.options()[i], OPTIONS[i], "Failed at options[{i}]");
    }
}

fn check_layout(frame: &TCPFrame, sequence_num: u32) {
    let bs = frame.as_bit_string();

    assert_eq!(bs.get_u16(0), SOURCE_PORT, "Failed at source_port");
    assert_eq!(bs.get_u16(16), TARGET_PORT, "Failed at target_port");
    assert_eq!(bs.get_u32(32), sequence_num, "Failed at sequence_num");
    assert_eq!(bs.get_u32(64), ACK_NUM, "Failed at ack_num");
    assert_eq!(bs.get_u8(96), DATA_OFFSET << 4, "Failed at data_offset");
    assert_eq!(bs.get_u8(104), FLAG, "Failed at flag");
    assert_eq!(bs.get_u16(112), WINDOW_SIZE, "Failed at window_size");
    assert_eq!(
        BitString::from_u16(bs.get_u16(128)),
        BitString::from_u16(frame.checksum()),
        "Failed at checksum"
    );
    assert_eq!(bs.get_u16(144), URGENT_POINTER, "Failed at urgent_pointer");
    for i in 0..10 {
        assert_eq!(
            bs.get_u32(160 + 32 * i),
            OPTIONS[i],
            "Failed at options[{i}]"
        );
    }
}

#[test]
fn basic_header_from_bitstring() {
    let headers = headers();

    assert_eq!(headers.len(), 2);

    check_layout(&headers[0], SEQUENCE_NUM1);
    check_layout(&headers[1], SEQUENCE_NUM2);
}

#[test]
fn correct_checksum_placement() {
    // Given
    let source_port = 0b0000_0000_0000_0000u16;
    let target_port = 0b0000_0000_0000_0000u16;
    let ack_num = 0b0000_0000_0000_0000_0000_0000_0000_0000u32;
    let data_offset = 0b0000_0000u8;
    let flag = 0b0000_0000u8;
    let window_size = 0b0000_0000_0000_0000u16;
    let urgent_pointer = 0b0000_0000_0000_0000u16;
    let options = [0, 0, 0, 0, 0, 0, 0, 0, 0, 0];

    // Hand calculated
    let checksum = 0b1111_1111_1111_1111;

    // Empty datapoints
    let data_points = [BitString::new()];

    let builder = TCPFrameBuilder::new()
        .set_source_port(source_port)
        .set_target_port(target_port)
        .set_ack_num(ack_num)
        .set_data_offset(data_offset)
        .set_flags(flag)
        .set_window_size(window_size)
        .set_urgent_pointer(urgent_pointer)
        .set_options(options);

    let headers = builder.build_all(&data_points);
    let header_bs = headers[0].as_bit_string().clone();
    let header = &headers[0];

    assert_eq!(header_bs.get_u16(128 - 16), 0);
    assert_eq!(header_bs.get_u16(128), checksum);
    assert_eq!(header_bs.get_u16(128 + 16), 0);
    assert_eq!(header.checksum(), checksum);
}

#[test]
fn with_data() {
    let frames = headers_with_data(&[BitString::from_u128_slice(&DATA)]);
    let frame = &frames[0];
    let frame_bs = frame.as_bit_string();

    assert_eq!(frame_bs.get_u16(0), frame.source_port(), "Failed at source_port");
    assert_eq!(frame_bs.get_u16(16), frame.target_port(), "Failed at target_port");
    assert_eq!(frame_bs.get_u32(32), frame.sequence_num(), "Failed at sequence_num1");
    assert_eq!(frame_bs.get_u32(64), frame.ack_num(), "Failed at ack_num");
    assert_eq!(frame_bs.get_u8(96) >> 4, frame.data_offset(), "Failed at data_offset");
    assert_eq!(frame_bs.get_u8(104), frame.flag_byte(), "Failed at flag");
    assert_eq!(frame_bs.get_u16(112), frame.window_size(), "Failed at window_size");
    assert_eq!(
        BitString::from_u16(frame_bs.get_u16(128)),
        BitString::from_u16(frame.checksum()),
        "Failed at checksum"
    );
    assert_eq!(frame_bs.get_u16(144), URGENT_POINTER, "Failed at urgent_pointer");
    for i in 0..10 {
        assert_eq!(
            frame_bs.get_u32(160 + 32 * i),
            frame.options()[i],
            "Failed at options[{i}]"
        );
    }
}

/// Sums the 16-bit words of a frame with end-around carry.
fn ones_sum(bs: &BitString) -> u16 {
    let mut sum: u32 = 0;
    for w in bs.as_vec_exact_u16() {
        sum += u32::from(w);
        while sum > 0xFFFF {
            sum = (sum >> 16) + (sum & 0xFFFF);
        }
    }
    sum as u16
}

#[test]
fn checksum_verifies_over_the_frame() {
    let frames = headers_with_data(&[BitString::from_u128_slice(&DATA), BitString::from_u8(0xA5)]);

    for frame in &frames {
        assert_eq!(frame.as_bit_string().len() % 16, 0);
        assert_eq!(ones_sum(frame.as_bit_string()), 0xFFFF);
    }
}

#[test]
fn payload_is_padded_to_sixteen_bits() {
    let payload = BitString::with_ones(3);
    let frames = TCPFrameBuilder::new()
        .set_source_port(1)
        .set_target_port(2)
        .set_window_size(3)
        .build_all(&[payload.clone()]);

    let bs = frames[0].as_bit_string();
    assert_eq!(bs.len(), 160 + 16);
    assert_eq!(bs.get_u16(160), 0b1110_0000_0000_0000);
    assert_eq!(frames[0].data(), &payload);
}

#[test]
fn chunking_numbers_frames_in_order() {
    let chunks: Vec<BitString> = (0..5u8).map(BitString::from_u8).collect();

    let frames = TCPFrameBuilder::new()
        .set_source_port(7)
        .set_target_port(8)
        .set_window_size(9)
        .set_flags(SYN)
        .set_flags(ACK)
        .build_all(&chunks);

    assert_eq!(frames.len(), 5);
    for (i, frame) in frames.iter().enumerate() {
        assert_eq!(frame.sequence_num(), i as u32);
        assert_eq!(frame.as_bit_string().get_u32(32), i as u32);
        assert_eq!(frame.flag_byte(), SYN | ACK);
        assert_eq!(frame.data(), &chunks[i]);
    }
}

#[test]
fn setup_frames_cuts_large_payloads() {
    let size = 8 * (65535 - 60);
    let data = BitString::with_ones(size + 5);
    let builder = TCPFrameBuilder::new()
        .set_source_port(1)
        .set_target_port(2)
        .set_window_size(3);

    let frames = TCPFrame::setup_frames(data, builder);

    assert_eq!(frames.len(), 2);
    assert_eq!(frames[0].data().len(), size);
    assert_eq!(frames[1].data().len(), 5);
    assert_eq!(frames[1].sequence_num(), 1);
}
