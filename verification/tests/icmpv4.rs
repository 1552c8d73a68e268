use ipstack::checksum::checksum;
use ipstack::icmpv4::error::Error;
use ipstack::icmpv4::packet::{
    DestinationUnreachablePacket, DestinationUnreachablePacketCode, EchoAndEchoReplyPacket,
    MessageType, Packet,
};
use ipstack::ipv4::builder::PacketBuilder;
use ipstack::ipv4::packet::Protocol;

fn echo_request_message() -> Vec<u8> {
    // type 8 (echo), code 0, zero checksum, identifier 7, sequence 42,
    // two payload bytes
    let mut bytes: Vec<u8> = vec![0x08, 0x00, 0x00, 0x00, 0x00, 0x07, 0x00, 0x2a, 0xaa, 0xbb];
    let c = checksum(bytes.as_slice());
    bytes[2] = (c >> 8) as u8;
    bytes[3] = (c & 0xff) as u8;
    bytes
}

#[test]
fn icmp_parse_echo_request() {
    let message = echo_request_message();
    assert_eq!(checksum(message.as_slice()), 0);

    let packet = EchoAndEchoReplyPacket::new_checked(message).expect("a valid echo message");
    assert!(packet.is_request());
    assert!(!packet.is_reply());
    assert_eq!(packet.identifier(), 7);
    assert_eq!(packet.sequence_number(), 42);
    assert_eq!(packet.payload(), [0xaa, 0xbb]);
}

#[test]
fn icmp_echo_reply_round_trip() {
    // an inbound echo request, carried by an IPv4 datagram
    let request = PacketBuilder::default()
        .identification(0x0600)
        .flags(0b000)
        .ttl(63)
        .protocol(Protocol::Icmp)
        .src_addr([192, 168, 1, 2])
        .dest_addr([192, 168, 1, 1])
        .payload(echo_request_message())
        .build();

    let inbound =
        EchoAndEchoReplyPacket::new_checked(request.payload().to_vec()).expect("an echo request");
    assert!(inbound.is_request());

    // the reply: same identifier, sequence and payload, type echo-reply,
    // addresses swapped, DF set, fresh TTL and identification
    let mut reply_message = Packet::new_unchecked(inbound.as_bytes().to_vec());
    reply_message.set_type(MessageType::EchoReply);
    reply_message.set_checksum(0);
    let icmp_checksum = checksum(reply_message.as_bytes());
    reply_message.set_checksum(icmp_checksum);
    assert_eq!(checksum(reply_message.as_bytes()), 0);

    let reply = PacketBuilder::default()
        .identification(0x1234)
        .flags(0b010)
        .ttl(64)
        .protocol(Protocol::Icmp)
        .src_addr(request.dest_addr())
        .dest_addr(request.src_addr())
        .payload(reply_message.into_vec())
        .build();

    assert_eq!(checksum(&reply.as_bytes()[..(reply.header_len() * 4) as usize]), 0);
    assert_eq!(reply.src_addr(), [192, 168, 1, 1]);
    assert_eq!(reply.dest_addr(), [192, 168, 1, 2]);
    assert!(reply.dont_fragment());
    assert_eq!(reply.ttl(), 64);
    assert_eq!(reply.identification(), 0x1234);

    let outbound = EchoAndEchoReplyPacket::new_checked(reply.payload().to_vec())
        .expect("a valid echo reply");
    assert!(outbound.is_reply());
    assert_eq!(outbound.identifier(), 7);
    assert_eq!(outbound.sequence_number(), 42);
    assert_eq!(outbound.payload(), [0xaa, 0xbb]);
}

#[test]
fn icmp_rejects_wrong_message_type() {
    // type 3 is destination-unreachable, not an echo
    let bytes: Vec<u8> = vec![0x03, 0x01, 0x00, 0x00, 0x00, 0x00, 0x00, 0x00];
    assert!(matches!(
        EchoAndEchoReplyPacket::new_checked(bytes.clone()),
        Err(Error::InvalidMessageType)
    ));

    let unreachable =
        DestinationUnreachablePacket::new_checked(bytes).expect("a destination unreachable");
    assert_eq!(unreachable.code(), DestinationUnreachablePacketCode::HostUnreachable);

    let echo_bytes: Vec<u8> = vec![0x08, 0x00, 0x00, 0x00, 0x00, 0x00, 0x00, 0x00];
    assert!(matches!(
        DestinationUnreachablePacket::new_checked(echo_bytes),
        Err(Error::InvalidMessageType)
    ));
}

#[test]
fn icmp_message_type_round_trip() {
    for value in 0..=255u8 {
        assert_eq!(MessageType::from_u8(value).to_u8(), value);
    }
    assert_eq!(MessageType::from_u8(0), MessageType::EchoReply);
    assert_eq!(MessageType::from_u8(8), MessageType::Echo);
    assert_eq!(MessageType::from_u8(200), MessageType::Unknown(200));
}
