use network_sim::bit_string::BitString;
use network_sim::data_link_layer::bit_stuffing::prepare_bits;
use network_sim::data_link_layer::frame::tcp::{TCPFrame, TCPFrameBuilder};
use network_sim::data_link_layer::frame::Frame;
use network_sim::data_link_layer::DataLinkLayer;

#[test]
fn windows_send_first_frame_of_each() {
    let chunks: Vec<BitString> = (0..4u8).map(BitString::from_u8).collect();
    let frames: Vec<TCPFrame> = TCPFrameBuilder::new()
        .set_source_port(1)
        .set_target_port(2)
        .set_window_size(2)
        .build_all(&chunks);

    let _layer = DataLinkLayer::new();
    let wire = DataLinkLayer::sliding_window(2, &frames);

    assert_eq!(wire.len(), 3);
    for (i, bits) in wire.iter().enumerate() {
        assert_eq!(bits, &prepare_bits(frames[i].as_bit_string().clone()));
    }

    assert!(DataLinkLayer::sliding_window(5, &frames).is_empty());
}
