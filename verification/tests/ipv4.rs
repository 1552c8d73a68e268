use ipstack::checksum::checksum;
use ipstack::ipv4::builder::PacketBuilder;
use ipstack::ipv4::error::Error;
use ipstack::ipv4::packet::{Ipv4Option, OptionClass, Packet, Protocol, MIN_HEADER_LEN, VERSION};
use ipstack::ipv4::reassembly::Reassembler;

#[test]
fn ipv4_packet_new_checked() {
    let mut ip_header_bytes: Vec<u8> = vec![
        // ip header
        0x4e, 0x00, 0x00, 0x78, 0x10, 0x2c, 0x00, 0x00, 0x40, 0x01, 0xdd, 0xaa, 0x7f, 0x00, 0x00,
        0x01, 0x7f, 0x00, 0x00, 0x01, 0x44, 0x24, 0x1d, 0x01, 0x7f, 0x00, 0x00, 0x01, 0x00, 0x13,
        0x37, 0xc3, 0x7f, 0x00, 0x00, 0x01, 0x00, 0x13, 0x37, 0xc3, 0x7f, 0x00, 0x00, 0x01, 0x00,
        0x13, 0x37, 0xc3, 0x00, 0x00, 0x00, 0x00, 0x00, 0x00, 0x00, 0x00,
    ];

    let mut ip_payload_bytes: Vec<u8> = vec![
        // ip payload (icmp echo reply)
        0x00, 0x00, 0x87, 0xa5, 0x00, 0x06, 0x00, 0x06, 0xeb, 0x17, 0x13, 0x61, 0x00, 0x00, 0x00,
        0x00, 0xb4, 0x02, 0x07, 0x00, 0x00, 0x00, 0x00, 0x00, 0x10, 0x11, 0x12, 0x13, 0x14, 0x15,
        0x16, 0x17, 0x18, 0x19, 0x1a, 0x1b, 0x1c, 0x1d, 0x1e, 0x1f, 0x20, 0x21, 0x22, 0x23, 0x24,
        0x25, 0x26, 0x27, 0x28, 0x29, 0x2a, 0x2b, 0x2c, 0x2d, 0x2e, 0x2f, 0x30, 0x31, 0x32, 0x33,
        0x34, 0x35, 0x36, 0x37,
    ];

    let mut bytes: Vec<u8> = vec![];
    bytes.append(&mut ip_header_bytes);
    bytes.append(&mut ip_payload_bytes);

    // ip packet generated from "ping 127.0.0.1 -T tsandaddr"
    let packet = Packet::new_checked(bytes).expect("a valid ipv4 packet");

    assert_eq!(packet.version(), 4);
    assert_eq!(packet.header_len(), 14);
    assert_eq!(packet.tos(), 0);
    assert_eq!(packet.total_len(), 120);
    assert_eq!(packet.identification(), 0x102c);
    assert_eq!(packet.flags(), 0b000);
    assert_eq!(packet.offset(), 0);
    assert_eq!(packet.ttl(), 64);
    assert_eq!(packet.protocol(), Protocol::Icmp);
    assert_eq!(packet.checksum(), 0xddaa);
    assert_eq!(packet.src_addr(), [127, 0, 0, 1]);
    assert_eq!(packet.dest_addr(), [127, 0, 0, 1]);

    let mut option_iterator = packet.options();

    let timestamp_option = option_iterator
        .next()
        .expect("some result")
        .expect("a valid ipv4 option");

    assert_eq!(timestamp_option.option_type().copied(), false);
    assert_eq!(
        timestamp_option.option_type().class(),
        OptionClass::DebuggingAndMeasurement
    );
    assert_eq!(timestamp_option.option_type().number(), 0b00000100);
    assert_eq!(timestamp_option.length(), Some(36));
    assert_eq!(option_iterator.next().is_none(), true);
}

#[test]
fn build() {
    let tos = 0;
    let identification = 0x1122;
    let flags = 0b010;
    let ttl = 100;
    let protocol = Protocol::Icmp;
    let src_addr = [127, 0, 0, 1];
    let dest_addr = [192, 168, 233, 233];
    let payload = vec![0; 20];

    let expected_total_len = (MIN_HEADER_LEN * 4) as usize + payload.len();
    let expected_payload = payload.clone();

    let packet = PacketBuilder::default()
        .tos(tos)
        .identification(identification)
        .flags(flags)
        .ttl(ttl)
        .protocol(protocol)
        .src_addr(src_addr)
        .dest_addr(dest_addr)
        .payload(payload)
        .build();

    assert_eq!(packet.version(), VERSION);
    assert_eq!(packet.header_len(), MIN_HEADER_LEN);
    assert_eq!(packet.tos(), tos);
    assert_eq!(packet.total_len() as usize, expected_total_len);
    assert_eq!(packet.identification(), identification);
    assert_eq!(packet.flags(), flags);
    assert_eq!(packet.ttl(), ttl);
    assert_eq!(packet.protocol(), protocol);
    assert_eq!(packet.src_addr(), src_addr);
    assert_eq!(packet.dest_addr(), dest_addr);
    assert_eq!(packet.payload(), expected_payload.as_slice());
}

#[test]
fn build_checksum_verifies() {
    // a built header, checksum computed, sums to the all-ones complement: 0
    let packet = PacketBuilder::default()
        .identification(0x77aa)
        .ttl(64)
        .protocol(Protocol::Udp)
        .src_addr([10, 0, 0, 1])
        .dest_addr([10, 0, 0, 2])
        .payload(vec![1, 2, 3, 4])
        .build();

    let header_len = (packet.header_len() * 4) as usize;
    let header = &packet.as_bytes()[..header_len];
    assert_eq!(checksum(header), 0);
    assert_ne!(packet.checksum(), 0);
}

#[test]
fn fragment() {
    let min_mtu = 68;
    let header_len = MIN_HEADER_LEN;
    let payload_len = 100;
    let payload: Vec<u8> = (0..payload_len).collect();

    let origin_packet = PacketBuilder::default()
        .header_len(header_len)
        .tos(0)
        .total_len(120)
        .identification(0x1001)
        .flags(0b000)
        .offset(0)
        .ttl(64)
        .protocol(Protocol::Udp)
        .src_addr([192, 168, 233, 233])
        .dest_addr([192, 168, 233, 234])
        .payload(payload)
        .build();

    let mut iterator = origin_packet.fragments(min_mtu);

    let first_fragment = iterator.next().unwrap();
    let second_fragment = iterator.next().unwrap();
    let third_fragment = iterator.next().unwrap();

    assert_eq!(iterator.next().is_none(), true);
    assert_eq!(iterator.mtu, min_mtu);
    assert_eq!(iterator.cursor, (payload_len + header_len * 4) as usize);

    assert_eq!(first_fragment.total_len(), min_mtu as u16);
    assert_eq!(first_fragment.flags(), 0b001);
    assert_eq!(first_fragment.offset(), 0);
    assert_eq!(first_fragment.payload(), (0..48).collect::<Vec<u8>>().as_slice());

    assert_eq!(second_fragment.total_len(), min_mtu as u16);
    assert_eq!(second_fragment.flags(), 0b001);
    assert_eq!(second_fragment.offset(), 6);
    assert_eq!(second_fragment.payload(), (48..96).collect::<Vec<u8>>().as_slice());

    assert_eq!(third_fragment.total_len(), 24);
    assert_eq!(third_fragment.flags(), 0b000);
    assert_eq!(third_fragment.offset(), 12);
    assert_eq!(third_fragment.payload(), (96..100).collect::<Vec<u8>>().as_slice());
}

fn get_fragments(payload_len: u8, ttl: u8) -> Vec<Packet> {
    let min_mtu = 68;
    let header_len = MIN_HEADER_LEN;
    let payload: Vec<u8> = (0..payload_len).collect();

    let origin_packet = PacketBuilder::default()
        .header_len(header_len)
        .tos(0)
        .total_len((header_len * 4 + payload_len) as u16)
        .identification(0x1001)
        .flags(0b000)
        .offset(0)
        .ttl(ttl)
        .protocol(Protocol::Udp)
        .src_addr([192, 168, 233, 233])
        .dest_addr([192, 168, 233, 234])
        .payload(payload)
        .build();

    let mut fragments = Vec::new();
    let mut iterator = origin_packet.fragments(min_mtu);
    loop {
        match iterator.next() {
            Some(fragment) => fragments.push(fragment),
            None => break,
        }
    }
    fragments
}

#[test]
fn reassemble() {
    let payload_len = 100;
    let mut fragments = get_fragments(payload_len, 20);

    let first = fragments.remove(0);
    let second = fragments.remove(0);
    let third = fragments.remove(0);

    let mut reassembler = Reassembler::default();

    assert_eq!(reassembler.reassemble(second).0.is_none(), true);
    assert_eq!(reassembler.reassemble(third).0.is_none(), true);

    let datagram = reassembler.reassemble(first).0.unwrap();

    assert_eq!(datagram.payload(), (0..payload_len).collect::<Vec<u8>>().as_slice());
    assert_eq!(datagram.identification(), 0x1001);
}

#[test]
fn reassemble_duplicates_do_not_change_outcome() {
    let payload_len = 100;
    let mut fragments = get_fragments(payload_len, 20);
    let mut copies = get_fragments(payload_len, 20);

    let first = fragments.remove(0);
    let second = fragments.remove(0);
    let third = fragments.remove(0);
    let second_again = copies.remove(1);

    let mut reassembler = Reassembler::default();
    assert!(reassembler.reassemble(third).0.is_none());
    assert!(reassembler.reassemble(second).0.is_none());
    assert!(reassembler.reassemble(second_again).0.is_none());

    let datagram = reassembler.reassemble(first).0.unwrap();
    assert_eq!(datagram.payload(), (0..payload_len).collect::<Vec<u8>>().as_slice());
}

#[test]
fn reassemble_timeout_budget() {
    // the scheduled eviction grows to the largest TTL seen, at least the
    // default lower bound
    let mut fragments = get_fragments(100, 20);
    let third = fragments.remove(2);
    let mut reassembler = Reassembler::default();
    let (completed, seconds) = reassembler.reassemble(third);
    assert!(completed.is_none());
    assert_eq!(seconds, 20);

    let mut low_ttl = get_fragments(100, 3);
    let second = low_ttl.remove(1);
    let mut other = Reassembler::default();
    let (_, seconds) = other.reassemble(second);
    assert_eq!(seconds, 15);
}

#[test]
fn release_forgets_datagram() {
    let mut fragments = get_fragments(100, 20);
    let first = fragments.remove(0);
    let id = first.datagram_id();

    let mut reassembler = Reassembler::default();
    reassembler.reassemble(first);
    assert!(reassembler.contains(id));

    reassembler.release(id);
    assert!(!reassembler.contains(id));
}

#[test]
fn new_checked_rejects_bad_version() {
    // version 6 in the top nibble
    let mut bytes = vec![0u8; 20];
    bytes[0] = 0x65;
    bytes[3] = 20;
    assert!(matches!(Packet::new_checked(bytes), Err(Error::InvalidVersion)));
}

#[test]
fn new_checked_rejects_bad_header_len() {
    // header length 4 words is below the minimum of 5
    let mut bytes = vec![0u8; 20];
    bytes[0] = 0x44;
    bytes[3] = 20;
    assert!(matches!(Packet::new_checked(bytes), Err(Error::InvalidHeaderLen)));
}

#[test]
fn new_checked_rejects_bad_total_len() {
    // total length field disagrees with the buffer length
    let mut bytes = vec![0u8; 20];
    bytes[0] = 0x45;
    bytes[3] = 21;
    assert!(matches!(Packet::new_checked(bytes), Err(Error::InvalidTotalLen)));
}

#[test]
fn option_rejects_short_buffer() {
    // a security option (type 0x82) needs 11 bytes
    let bytes: Vec<u8> = vec![0x82, 0x0b, 0x00];
    assert!(matches!(
        Ipv4Option::new_checked(bytes.as_slice()),
        Err(Error::InvalidOptionLen)
    ));
}

#[test]
fn fragment_block_multiple_payload_ends_with_mf_clear() {
    // 96 bytes is exactly two full fragment blocks at MTU 68: the stream
    // must still end with a final fragment whose MF bit is clear
    let fragments = get_fragments(96, 64);
    assert_eq!(fragments.len(), 2);
    assert_eq!(fragments[0].flags(), 0b001);
    assert_eq!(fragments[0].payload().len(), 48);
    assert_eq!(fragments[1].flags(), 0b000);
    assert_eq!(fragments[1].payload().len(), 48);
    assert_eq!(fragments[1].offset(), 6);

    let mut reassembler = Reassembler::default();
    let mut fragments = fragments;
    let last = fragments.remove(1);
    let first = fragments.remove(0);
    assert!(reassembler.reassemble(last).0.is_none());
    let datagram = reassembler.reassemble(first).0.expect("a complete datagram");
    assert_eq!(datagram.payload(), (0..96).collect::<Vec<u8>>().as_slice());
}

#[test]
fn options_stop_at_end_option() {
    // header of 7 words: a no-operation, an end, then padding that the
    // iterator must not surface
    let mut bytes = vec![0u8; 28];
    bytes[0] = 0x47;
    bytes[3] = 28;
    bytes[20] = 0x01;
    bytes[21] = 0x00;
    bytes[22] = 0x01;
    bytes[23] = 0x01;
    let packet = Packet::new_checked(bytes).expect("a valid ipv4 packet");
    let mut options = packet.options();

    let noop = options.next().expect("some result").expect("a valid option");
    assert_eq!(noop.option_type().number(), 1);
    assert!(options.next().is_none());
}

#[test]
fn option_class_round_trip() {
    // the class sub-field occupies two bits; every value converts back
    for value in 0..=3u8 {
        assert_eq!(OptionClass::from_u8(value).to_u8(), value);
    }
    assert_eq!(OptionClass::from_u8(0), OptionClass::Control);
    assert_eq!(OptionClass::from_u8(2), OptionClass::DebuggingAndMeasurement);
    assert_eq!(OptionClass::from_u8(1), OptionClass::Unknown(1));
}

#[test]
fn protocol_round_trip() {
    for value in 0..=255u8 {
        assert_eq!(Protocol::from_u8(value).to_u8(), value);
    }
    assert_eq!(Protocol::from_u8(1), Protocol::Icmp);
    assert_eq!(Protocol::from_u8(6), Protocol::Tcp);
    assert_eq!(Protocol::from_u8(17), Protocol::Udp);
    assert_eq!(Protocol::from_u8(99), Protocol::Unknown(99));
}
