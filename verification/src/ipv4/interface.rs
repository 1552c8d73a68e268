//! The interface logic between the device and the upper layers: planning an
//! outbound transmission, and validating an inbound datagram and routing it
//! to the reassembler. The device I/O and the eviction timer live with the
//! caller, which performs what these functions decide.

use vstd::prelude::*;
use vstd::slice::slice_subrange;

use crate::checksum::{checksum, checksum_spec};
use crate::ipv4::error::Error;
use crate::ipv4::fragmentation::{
    spec_frag_wf, spec_fragment_bytes, spec_fragment_list, spec_nfb,
};
use crate::ipv4::packet::{
    spec_dont_fragment, spec_header_len, spec_more_fragments, spec_offset, spec_total_len,
    spec_ttl, spec_version, spec_wf, Packet, MIN_HEADER_LEN, VERSION,
};
use crate::ipv4::reassembly::{
    spec_datagram_id, spec_find_index, spec_first, spec_frag_ok, spec_reassemble_step,
    Reassembler, DEFAULT_TLB,
};

verus! {

/// Default Maximum Transmission Unit, in bytes including the IP header.
pub const DEFAULT_MTU: usize = 1500;

/// An eviction the caller must schedule: forget the datagram identity after
/// the given seconds, unless reassembly completes first.
#[derive(Debug, Clone, Copy, PartialEq, Eq, Structural)]
pub struct ScheduleRequest {
    pub datagram_id: u128,
    pub seconds: u8,
}

/// The on-wire buffers that sending `packet` writes to the device: the
/// packet itself when it fits the MTU, its fragments otherwise, and a
/// failure when fragmentation is forbidden.
pub fn send_frames(packet: &Packet, mtu: usize) -> (r: Result<Vec<Vec<u8>>, Error>)
    requires
        spec_wf(packet@),
        spec_header_len(packet@) * 4 <= packet@.len(),
        28 <= mtu <= 0xffff,
    ensures
        packet@.len() <= mtu ==> (r matches Ok(v) && v@.len() == 1 && v@[0]@ == packet@),
        packet@.len() > mtu && spec_dont_fragment(packet@) ==> r == Err::<Vec<Vec<u8>>, Error>(
            Error::NonFragmentablePacket,
        ),
        packet@.len() > mtu && !spec_dont_fragment(packet@) ==> (r matches Ok(v) && ({
            let frames_spec = spec_fragment_list(
                packet@,
                mtu as int,
                spec_header_len(packet@) * 4,
            );
            &&& v@.len() == frames_spec.len()
            &&& forall|k: int| 0 <= k < v@.len() ==> (#[trigger] v@[k])@ == frames_spec[k]
        })),
{
    let octets_len = packet.as_bytes().len();

    if octets_len > mtu {
        if packet.dont_fragment() {
            Err(Error::NonFragmentablePacket)
        } else {
            let ghost o = packet@;
            let ghost m = mtu as int;
            let mut iterator = packet.fragments(mtu);
            proof {
                assert(o.take(spec_total_len(o) as int) =~= o);
            }
            let ghost c0 = iterator.cursor as int;
            let mut frames: Vec<Vec<u8>> = Vec::new();
            proof {
                assert(Seq::<Seq<u8>>::empty() + spec_fragment_list(o, m, c0)
                    =~= spec_fragment_list(o, m, c0));
                assert(frames@.map_values(|f: Vec<u8>| f@) =~= Seq::<Seq<u8>>::empty());
            }
            loop
                invariant
                    iterator.buffer@ == o,
                    iterator.mtu == mtu,
                    m == mtu as int,
                    spec_frag_wf(o, m),
                    iterator.cursor >= spec_header_len(o) * 4,
                    iterator.cursor <= o.len() + mtu,
                    c0 == spec_header_len(o) * 4,
                    spec_fragment_list(o, m, c0) == frames@.map_values(|f: Vec<u8>| f@)
                        + spec_fragment_list(o, m, iterator.cursor as int),
                ensures
                    ({
                        let frames_spec = spec_fragment_list(o, m, c0);
                        &&& frames@.len() == frames_spec.len()
                        &&& forall|k: int|
                            0 <= k < frames@.len() ==> (#[trigger] frames@[k])@
                                == frames_spec[k]
                    }),
                decreases o.len() - iterator.cursor,
            {
                let ghost frames_before = frames@;
                let ghost cursor_before = iterator.cursor as int;
                let next = iterator.next();
                match next {
                    Some(fragment) => {
                        proof {
                            if o.len() - cursor_before >= m - 20 {
                                assert(spec_nfb(m) * 8 >= 8) by (nonlinear_arith)
                                    requires m >= 28;
                            }
                        }
                        frames.push(fragment.into_vec());
                        proof {
                            assert(frames@.map_values(|f: Vec<u8>| f@)
                                =~= frames_before.map_values(|f: Vec<u8>| f@).push(
                                spec_fragment_bytes(o, m, cursor_before),
                            ));
                            assert(frames_before.map_values(|f: Vec<u8>| f@) + (seq![
                                spec_fragment_bytes(o, m, cursor_before)] + spec_fragment_list(
                                o,
                                m,
                                iterator.cursor as int,
                            )) =~= frames@.map_values(|f: Vec<u8>| f@) + spec_fragment_list(
                                o,
                                m,
                                iterator.cursor as int,
                            ));
                        }
                    },
                    None => {
                        proof {
                            let frames_spec = spec_fragment_list(o, m, c0);
                            assert(spec_fragment_list(o, m, iterator.cursor as int)
                                =~= Seq::<Seq<u8>>::empty());
                            assert(frames@.map_values(|f: Vec<u8>| f@) + Seq::<Seq<
                                u8,
                            >>::empty() =~= frames@.map_values(|f: Vec<u8>| f@));
                            assert(frames@.len() == frames_spec.len());
                            assert forall|k: int| 0 <= k < frames@.len() implies (
                            #[trigger] frames@[k])@ == frames_spec[k] by {
                                assert(frames@.map_values(|f: Vec<u8>| f@)[k] == frames@[k]@);
                            };
                        }
                        break;
                    },
                }
            }
            Ok(frames)
        }
    } else {
        let mut frames: Vec<Vec<u8>> = Vec::new();
        frames.push(crate::ipv4::packet::copy_range(packet.as_bytes(), 0, octets_len));
        proof {
            assert(frames@[0]@ =~= packet@);
        }
        Ok(frames)
    }
}

/// What an inbound frame must satisfy before it reaches the reassembler.
pub open spec fn spec_inbound_valid(b: Seq<u8>) -> bool {
    &&& spec_wf(b)
    &&& spec_header_len(b) * 4 <= b.len()
    &&& checksum_spec(b.take(spec_header_len(b) * 4)) == 0
}

/// Whether the frame is a whole datagram rather than a fragment.
pub open spec fn spec_whole(b: Seq<u8>) -> bool {
    spec_offset(b) == 0 && !spec_more_fragments(b)
}

/// Validates one inbound frame and routes it: a whole datagram is returned
/// at once (clearing any stale reassembly context of its identity); a
/// fragment goes to the reassembler, which may complete a datagram.
/// Alongside, the eviction the caller must now schedule, if any.
pub fn receive_frame(reassembler: &mut Reassembler, buf: Vec<u8>) -> (r: (
    Result<Packet, Error>,
    Option<ScheduleRequest>,
))
    requires
        old(reassembler).wf(),
    ensures
        final(reassembler).wf(),
        ({
            let b = buf@;
            let hb = spec_header_len(b) * 4;
            let id = spec_datagram_id(b);
            &&& (b.len() < 4 ==> r.0 == Err::<Packet, Error>(Error::InvalidTotalLen))
            &&& (b.len() >= 4 && spec_version(b) != VERSION ==> r.0 == Err::<Packet, Error>(
                Error::InvalidVersion,
            ))
            &&& (b.len() >= 4 && spec_version(b) == VERSION && spec_header_len(b)
                < MIN_HEADER_LEN ==> r.0 == Err::<Packet, Error>(Error::InvalidHeaderLen))
            &&& (b.len() >= 4 && spec_version(b) == VERSION && spec_header_len(b)
                >= MIN_HEADER_LEN && spec_total_len(b) != b.len() ==> r.0 == Err::<
                Packet,
                Error,
            >(Error::InvalidTotalLen))
            &&& (spec_wf(b) && hb > b.len() ==> r.0 == Err::<Packet, Error>(
                Error::InvalidTotalLen,
            ))
            &&& (spec_wf(b) && hb <= b.len() && checksum_spec(b.take(hb)) != 0 ==> r.0 == Err::<
                Packet,
                Error,
            >(Error::InvalidChecksum))
            &&& (!spec_inbound_valid(b) ==> r.1 is None && final(reassembler).entries@ == old(
                reassembler,
            ).entries@)
            &&& (spec_inbound_valid(b) && spec_whole(b) ==> ({
                &&& (r.0 matches Ok(p) && p@ == b)
                &&& r.1 is None
                &&& spec_find_index(final(reassembler).entries@, id) == -1
            }))
            &&& (spec_inbound_valid(b) && !spec_whole(b) && b.len() == hb ==> r.0 == Err::<
                Packet,
                Error,
            >(Error::TryAgainLater) && r.1 is None && final(reassembler).entries@ == old(
                reassembler,
            ).entries@)
            &&& (spec_inbound_valid(b) && !spec_whole(b) && b.len() > hb && spec_first(b) + (
            b.len() - hb) > 0x10000 ==> r.0 == Err::<Packet, Error>(Error::InvalidTotalLen)
                && r.1 is None && final(reassembler).entries@ == old(reassembler).entries@)
            &&& (spec_inbound_valid(b) && !spec_whole(b) && spec_frag_ok(b) ==> ({
                let i0 = spec_find_index(old(reassembler).entries@, id);
                let prior: u8 = if i0 >= 0 {
                    old(reassembler).entries@[i0].datagram.reassembly_timer.timeout
                } else {
                    DEFAULT_TLB
                };
                let t: u8 = if prior >= spec_ttl(b) {
                    prior
                } else {
                    spec_ttl(b)
                };
                &&& (r.1 matches Some(req) && req.datagram_id == id && req.seconds == t)
                &&& (r.0 is Err ==> r.0 == Err::<Packet, Error>(Error::TryAgainLater)
                    && spec_find_index(final(reassembler).entries@, id) >= 0)
                &&& (r.0 is Ok ==> spec_find_index(final(reassembler).entries@, id) == -1)
                &&& (r.0 matches Ok(p) ==> exists|fp: Packet|
                    #![trigger fp@]
                    fp@ == b && spec_reassemble_step(
                        old(reassembler).entries@,
                        final(reassembler).entries@,
                        fp,
                        t,
                        Some(p),
                    ))
                &&& (r.0 is Err ==> exists|fp: Packet|
                    #![trigger fp@]
                    fp@ == b && spec_reassemble_step(
                        old(reassembler).entries@,
                        final(reassembler).entries@,
                        fp,
                        t,
                        None::<Packet>,
                    ))
            }))
        }),
{
    let packet = match Packet::new_checked(buf) {
        Ok(p) => p,
        Err(e) => {
            return (Err(e), None);
        },
    };

    let header_bytes: usize = (packet.header_len() as usize) * 4;
    if header_bytes > packet.as_bytes().len() {
        return (Err(Error::InvalidTotalLen), None);
    }

    let checksum_value = checksum(slice_subrange(packet.as_bytes(), 0, header_bytes));
    if checksum_value != 0 {
        return (Err(Error::InvalidChecksum), None);
    }

    // a whole datagram answers directly; clear any stale context of its id
    if packet.offset() == 0 && !packet.more_fragments() {
        reassembler.release(packet.datagram_id());
        return (Ok(packet), None);
    }

    let payload_len = packet.as_bytes().len() - header_bytes;
    if payload_len == 0 {
        return (Err(Error::TryAgainLater), None);
    }
    if (packet.first() as usize) + payload_len > 0x10000 {
        return (Err(Error::InvalidTotalLen), None);
    }

    let datagram_id = packet.datagram_id();
    let ghost fp = packet;
    let (completed, seconds) = reassembler.reassemble(packet);
    let request = Some(ScheduleRequest { datagram_id, seconds });
    match completed {
        Some(datagram) => {
            proof {
                assert(spec_reassemble_step(
                    old(reassembler).entries@,
                    reassembler.entries@,
                    fp,
                    seconds,
                    Some(datagram),
                ));
            }
            (Ok(datagram), request)
        },
        None => {
            proof {
                assert(spec_reassemble_step(
                    old(reassembler).entries@,
                    reassembler.entries@,
                    fp,
                    seconds,
                    None::<Packet>,
                ));
            }
            (Err(Error::TryAgainLater), request)
        },
    }
}

} // verus!
