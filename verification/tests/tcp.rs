use ipstack::tcp::error::Error;
use ipstack::tcp::packet::Packet;

#[test]
fn packet_new_checked() {
    let mut tcp_header_bytes: Vec<u8> = vec![
        // tcp header
        0xc0, 0x9b, 0x0b, 0xb8, 0x57, 0x16, 0x23, 0x08, 0x60, 0x82, 0x25, 0x90, 0x80, 0x18, 0x18,
        0xeb, 0xfe, 0x76, 0x00, 0x00, 0x01, 0x01, 0x08, 0x0a, 0xf1, 0x51, 0xfb, 0xc9, 0xa8, 0x10,
        0x91, 0x0d,
    ];

    let mut tcp_payload_bytes: Vec<u8> = vec![
        // tcp payload
        0x47, 0x45, 0x54, 0x20, 0x2f, 0x20, 0x48, 0x54, 0x54, 0x50, 0x2f, 0x31, 0x2e, 0x31, 0x0d,
        0x0a, 0x48, 0x6f, 0x73, 0x74, 0x3a, 0x20, 0x31, 0x32, 0x37, 0x2e, 0x30, 0x2e, 0x30, 0x2e,
        0x31, 0x3a, 0x33, 0x30, 0x30, 0x30, 0x0d, 0x0a, 0x55, 0x73, 0x65, 0x72, 0x2d, 0x41, 0x67,
        0x65, 0x6e, 0x74, 0x3a, 0x20, 0x63, 0x75, 0x72, 0x6c, 0x2f, 0x37, 0x2e, 0x36, 0x34, 0x2e,
        0x31, 0x0d, 0x0a, 0x41, 0x63, 0x63, 0x65, 0x70, 0x74, 0x3a, 0x20, 0x2a, 0x2f, 0x2a, 0x0d,
        0x0a, 0x0d, 0x0a,
    ];

    let mut bytes: Vec<u8> = vec![];
    bytes.append(&mut tcp_header_bytes);
    bytes.append(&mut tcp_payload_bytes);

    // tcp packet generated from "curl 127.0.0.1:3000"
    let packet = Packet::new_checked(bytes).expect("a valid tcp packet");

    assert_eq!(packet.src_port(), 49307);
    assert_eq!(packet.dest_port(), 3000);
    assert_eq!(packet.seq_number(), 0x57162308);
    assert_eq!(packet.ack_number(), 0x60822590);
    assert_eq!(packet.data_offset(), 8);
    assert_eq!(packet.urg(), false);
    assert_eq!(packet.ack(), true);
    assert_eq!(packet.psh(), true);
    assert_eq!(packet.rst(), false);
    assert_eq!(packet.syn(), false);
    assert_eq!(packet.fin(), false);
    assert_eq!(packet.window(), 0x18eb);
    assert_eq!(packet.checksum(), 0xfe76);
    assert_eq!(packet.urgent_pointer(), 0x0000);
}

#[test]
fn setter() {
    let data_offset = 5 as usize;
    let payload_len = 8 as usize;
    let total_len = data_offset * 4 + payload_len;

    let buffer: Vec<u8> = vec![0; total_len];
    let mut packet = Packet::new_unchecked(buffer);

    packet.set_src_port(4096);
    assert_eq!(packet.src_port(), 4096);

    packet.set_dest_port(80);
    assert_eq!(packet.dest_port(), 80);

    packet.set_seq_number(0x11223344);
    assert_eq!(packet.seq_number(), 0x11223344);

    packet.set_ack_number(0xffeeddcc);
    assert_eq!(packet.ack_number(), 0xffeeddcc);

    packet.set_data_offset(data_offset as u8);
    assert_eq!(packet.data_offset(), data_offset as u8);

    packet.set_reserved(0b111111);
    assert_eq!(packet.reserved(), 0b111111);

    packet.set_urg(true);
    assert_eq!(packet.urg(), true);

    packet.set_ack(true);
    assert_eq!(packet.ack(), true);

    packet.set_psh(true);
    assert_eq!(packet.psh(), true);

    packet.set_rst(true);
    assert_eq!(packet.rst(), true);

    packet.set_syn(true);
    assert_eq!(packet.syn(), true);

    packet.set_fin(true);
    assert_eq!(packet.fin(), true);

    packet.set_window(0x45bd);
    assert_eq!(packet.window(), 0x45bd);

    packet.set_checksum(0x34e8);
    assert_eq!(packet.checksum(), 0x34e8);

    packet.set_urgent_pointer(0xc67f);
    assert_eq!(packet.urgent_pointer(), 0xc67f);

    packet.set_payload(vec![1, 2, 3, 4, 5, 6, 7, 8].as_slice());
    assert_eq!(packet.payload(), vec![1, 2, 3, 4, 5, 6, 7, 8].as_slice());
}

#[test]
fn tcp_invalid_data_offset() {
    // data offset 8 words = 32 bytes, but the buffer holds only 20
    let mut bytes: Vec<u8> = vec![0; 20];
    bytes[12] = 0x80;
    let result = Packet::new_checked(bytes);
    assert!(matches!(result, Err(Error::InvalidDataOffset)));
}
