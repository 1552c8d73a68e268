use ipstack::ipv4::builder::PacketBuilder;
use ipstack::ipv4::error::Error;
use ipstack::ipv4::interface::{receive_frame, send_frames};
use ipstack::ipv4::packet::{Packet, Protocol, MIN_HEADER_LEN};
use ipstack::ipv4::reassembly::Reassembler;

fn datagram(payload_len: u8, flags: u8) -> Packet {
    let payload: Vec<u8> = (0..payload_len).collect();
    PacketBuilder::default()
        .header_len(MIN_HEADER_LEN)
        .identification(0x1001)
        .flags(flags)
        .ttl(20)
        .protocol(Protocol::Udp)
        .src_addr([192, 168, 233, 233])
        .dest_addr([192, 168, 233, 234])
        .payload(payload)
        .build()
}

#[test]
fn send_whole_within_mtu() {
    let packet = datagram(100, 0b000);
    let frames = send_frames(&packet, 1500).expect("a sendable packet");
    assert_eq!(frames.len(), 1);
    assert_eq!(frames[0].as_slice(), packet.as_bytes());
}

#[test]
fn send_rejects_unfragmentable() {
    let packet = datagram(100, 0b010);
    let result = send_frames(&packet, 68);
    assert!(matches!(result, Err(Error::NonFragmentablePacket)));
}

#[test]
fn send_fragments_oversized() {
    let packet = datagram(100, 0b000);
    let frames = send_frames(&packet, 68).expect("a fragmentable packet");
    assert_eq!(frames.len(), 3);

    // every frame fits the MTU, and the payloads concatenate to the original
    let mut collected: Vec<u8> = Vec::new();
    for frame in &frames {
        assert!(frame.len() <= 68);
        let fragment = Packet::new_checked(frame.clone()).expect("a valid fragment");
        collected.extend_from_slice(fragment.payload());
    }
    assert_eq!(collected.as_slice(), packet.payload());
}

#[test]
fn receive_whole_datagram() {
    let packet = datagram(100, 0b000);
    let mut reassembler = Reassembler::default();
    let (result, schedule) = receive_frame(&mut reassembler, packet.as_bytes().to_vec());
    let received = result.expect("a whole datagram");
    assert_eq!(received.as_bytes(), packet.as_bytes());
    assert!(schedule.is_none());
}

#[test]
fn receive_rejects_bad_checksum() {
    let packet = datagram(100, 0b000);
    let mut bytes = packet.into_vec();
    bytes[10] ^= 0xff;
    let mut reassembler = Reassembler::default();
    let (result, schedule) = receive_frame(&mut reassembler, bytes);
    assert!(matches!(result, Err(Error::InvalidChecksum)));
    assert!(schedule.is_none());
}

#[test]
fn receive_reassembles_fragments() {
    let packet = datagram(100, 0b000);
    let frames = send_frames(&packet, 68).expect("a fragmentable packet");
    assert_eq!(frames.len(), 3);
    let datagram_id = Packet::new_unchecked(frames[0].clone()).datagram_id();

    let mut reassembler = Reassembler::default();

    let (first, schedule) = receive_frame(&mut reassembler, frames[1].clone());
    assert!(matches!(first, Err(Error::TryAgainLater)));
    let request = schedule.expect("an eviction to schedule");
    assert_eq!(request.datagram_id, datagram_id);
    assert_eq!(request.seconds, 20);

    let (second, _) = receive_frame(&mut reassembler, frames[2].clone());
    assert!(matches!(second, Err(Error::TryAgainLater)));

    let (third, schedule) = receive_frame(&mut reassembler, frames[0].clone());
    let reassembled = third.expect("a reassembled datagram");
    assert!(schedule.is_some());

    assert_eq!(reassembled.payload(), packet.payload());
    assert_eq!(reassembled.identification(), packet.identification());
    assert!(!reassembled.more_fragments());
    assert_eq!(reassembled.offset(), 0);
    assert!(!reassembler.contains(datagram_id));
}

#[test]
fn receive_whole_clears_stale_context() {
    // a whole datagram with the same identity as fragments still under
    // reassembly clears the stale context
    let packet = datagram(100, 0b000);
    let frames = send_frames(&packet, 68).expect("a fragmentable packet");
    let id = Packet::new_unchecked(frames[0].clone()).datagram_id();

    let mut reassembler = Reassembler::default();
    let _ = receive_frame(&mut reassembler, frames[0].clone());
    assert!(reassembler.contains(id));

    let (result, _) = receive_frame(&mut reassembler, packet.as_bytes().to_vec());
    assert!(result.is_ok());
    assert!(!reassembler.contains(id));
}

#[test]
fn receive_rejects_malformed_frame() {
    let mut reassembler = Reassembler::default();
    let (result, _) = receive_frame(&mut reassembler, vec![0x60, 0x00, 0x00, 0x04]);
    assert!(matches!(result, Err(Error::InvalidVersion)));

    let (result, _) = receive_frame(&mut reassembler, vec![]);
    assert!(matches!(result, Err(Error::InvalidTotalLen)));
}
