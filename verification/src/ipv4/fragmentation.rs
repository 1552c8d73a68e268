//! Splitting an oversized datagram into MTU-sized on-wire fragments
//! (RFC 791 section 3.2).

use vstd::prelude::*;
use vstd::slice::slice_subrange;

use crate::checksum::checksum_spec;
use crate::ipv4::builder::{
    lemma_build_cfg_round_trip, spec_build_cfg, HeaderConfig, PacketBuilder,
};
use crate::ipv4::packet::{
    copy_range, lemma_protocol_round_trip, spec_dest_addr, spec_flags, spec_header_len,
    spec_identification, spec_more_fragments, spec_offset, spec_payload, spec_protocol,
    spec_src_addr, spec_tos, spec_total_len, spec_ttl, spec_version, spec_wf, Packet, Protocol,
    MIN_HEADER_LEN, VERSION,
};

verus! {

/// Number of fragment blocks: the 8-byte payload units that fit an MTU
/// alongside a minimum header.
pub open spec fn spec_nfb(mtu: int) -> int {
    (mtu - 20) / 8
}

/// How many payload bytes the fragment whose payload starts at `cursor`
/// carries: a full run of fragment blocks, or the remainder for the last.
pub open spec fn spec_frag_payload_len(len: int, mtu: int, cursor: int) -> int {
    if len - cursor <= mtu - 20 {
        len - cursor
    } else {
        spec_nfb(mtu) * 8
    }
}

/// What fragment iteration requires of the origin buffer and the MTU.
pub open spec fn spec_frag_wf(b: Seq<u8>, mtu: int) -> bool {
    &&& MIN_HEADER_LEN <= spec_header_len(b)
    &&& spec_header_len(b) * 4 <= b.len() <= 0xffff
    &&& 28 <= mtu <= 0xffff
}

/// The header configuration of the fragment whose payload starts at
/// `cursor`: origin fields, a minimum header, MF set on all but the last.
pub open spec fn spec_fragment_cfg(o: Seq<u8>, mtu: int, cursor: int) -> HeaderConfig {
    let plen = spec_frag_payload_len(o.len() as int, mtu, cursor);
    let is_last = o.len() - cursor <= mtu - 20;
    HeaderConfig {
        version: VERSION,
        header_len: MIN_HEADER_LEN,
        tos: spec_tos(o),
        total_len: (20 + plen) as u16,
        identification: spec_identification(o),
        flags: if is_last {
            spec_flags(o)
        } else {
            spec_flags(o) | 0b001
        },
        offset: (spec_offset(o) + (cursor - spec_header_len(o) * 4) / 8) as u16,
        ttl: spec_ttl(o),
        protocol: spec_protocol(o),
        checksum: 0,
        src_addr: spec_src_addr(o),
        dest_addr: spec_dest_addr(o),
    }
}

/// The on-wire bytes of that fragment.
pub open spec fn spec_fragment_bytes(o: Seq<u8>, mtu: int, cursor: int) -> Seq<u8> {
    spec_build_cfg(
        spec_fragment_cfg(o, mtu, cursor),
        o.subrange(cursor, cursor + spec_frag_payload_len(o.len() as int, mtu, cursor)),
    )
}

/// The concatenation of all fragment payloads from `cursor` on.
pub open spec fn spec_fragment_payloads(o: Seq<u8>, mtu: int, cursor: int) -> Seq<u8>
    decreases o.len() - cursor when 28 <= mtu && 0 <= cursor
{
    if cursor >= o.len() {
        Seq::empty()
    } else {
        let plen = spec_frag_payload_len(o.len() as int, mtu, cursor);
        o.subrange(cursor, cursor + plen) + spec_fragment_payloads(o, mtu, cursor + plen)
    }
}

/// All fragments of `o` from `cursor` on, as on-wire byte buffers.
pub open spec fn spec_fragment_list(o: Seq<u8>, mtu: int, cursor: int) -> Seq<Seq<u8>>
    decreases o.len() - cursor when 28 <= mtu && 0 <= cursor
{
    if cursor >= o.len() {
        Seq::empty()
    } else {
        let plen = spec_frag_payload_len(o.len() as int, mtu, cursor);
        seq![spec_fragment_bytes(o, mtu, cursor)] + spec_fragment_list(o, mtu, cursor + plen)
    }
}

/// Fragment payloads, in order, concatenate to the origin bytes from
/// `cursor` on: fragmentation drops and duplicates nothing.
pub proof fn lemma_fragments_cover(o: Seq<u8>, mtu: int, cursor: int)
    requires
        28 <= mtu,
        0 <= cursor <= o.len(),
    ensures
        spec_fragment_payloads(o, mtu, cursor) == o.skip(cursor),
    decreases o.len() - cursor,
{
    if cursor >= o.len() {
        assert(spec_fragment_payloads(o, mtu, cursor) =~= o.skip(cursor));
    } else {
        let plen = spec_frag_payload_len(o.len() as int, mtu, cursor);
        lemma_fragments_cover(o, mtu, cursor + plen);
        assert(o.subrange(cursor, cursor + plen) + o.skip(cursor + plen) =~= o.skip(cursor));
    }
}

/// Fragmentation is payload-preserving: starting at the origin's payload,
/// the fragments' payloads concatenate to exactly the origin's payload.
pub proof fn lemma_fragmentation_payload_preserving(o: Seq<u8>, mtu: int)
    requires
        spec_frag_wf(o, mtu),
    ensures
        spec_fragment_payloads(o, mtu, spec_header_len(o) * 4) == spec_payload(o),
{
    lemma_fragments_cover(o, mtu, spec_header_len(o) * 4);
}

/// Each emitted fragment reads back with the origin's identity fields, fits
/// the MTU, carries MF on all but the last fragment, places its payload by
/// the fragment-offset arithmetic, and checksums to zero over its header.
pub proof fn lemma_fragment_fields(o: Seq<u8>, mtu: int, cursor: int)
    requires
        spec_frag_wf(o, mtu),
        spec_header_len(o) * 4 <= cursor < o.len(),
    ensures
        ({
            let fr = spec_fragment_bytes(o, mtu, cursor);
            let plen = spec_frag_payload_len(o.len() as int, mtu, cursor);
            let is_last = o.len() - cursor <= mtu - 20;
            &&& fr.len() == 20 + plen
            &&& fr.len() <= mtu
            &&& 1 <= plen
            &&& spec_version(fr) == VERSION
            &&& spec_header_len(fr) == MIN_HEADER_LEN
            &&& spec_total_len(fr) == 20 + plen
            &&& spec_tos(fr) == spec_tos(o)
            &&& spec_identification(fr) == spec_identification(o)
            &&& spec_ttl(fr) == spec_ttl(o)
            &&& spec_protocol(fr) == spec_protocol(o)
            &&& spec_src_addr(fr) == spec_src_addr(o)
            &&& spec_dest_addr(fr) == spec_dest_addr(o)
            &&& spec_payload(fr) == o.subrange(cursor, cursor + plen)
            &&& spec_wf(fr)
            &&& checksum_spec(fr.take(20)) == 0
            &&& is_last ==> spec_flags(fr) == spec_flags(o)
            &&& !is_last ==> spec_flags(fr) == (spec_flags(o) | 0b001)
            &&& spec_more_fragments(fr) == (!is_last || spec_more_fragments(o))
            &&& spec_offset(fr) == (spec_offset(o) + (cursor - spec_header_len(o) * 4) / 8)
                % 0x2000
        }),
{
    let c = spec_fragment_cfg(o, mtu, cursor);
    let plen = spec_frag_payload_len(o.len() as int, mtu, cursor);
    let is_last = o.len() - cursor <= mtu - 20;
    let payload = o.subrange(cursor, cursor + plen);
    let fr = spec_fragment_bytes(o, mtu, cursor);

    assert(1 <= plen && 20 + plen <= mtu) by {
        if !is_last {
            assert(spec_nfb(mtu) * 8 <= mtu - 20 && spec_nfb(mtu) >= 1) by (nonlinear_arith)
                requires mtu >= 28;
        }
    };
    lemma_build_cfg_round_trip(c, payload);

    let f = spec_flags(o);
    assert(f <= 7) by {
        let b6 = o[6];
        assert(b6 >> 5 <= 7) by (bit_vector);
    };
    assert(f & 0x07 == f && (f | 0b001) & 0x07 == (f | 0b001) && (4u8 & 0x0f) == 4) by (bit_vector)
        requires f <= 7;
    assert((f | 0b001) & 0b001 == 0b001) by (bit_vector);
    lemma_protocol_round_trip(o[9]);

    let off = spec_offset(o);
    assert(off < 0x2000) by {
        let b6 = o[6];
        assert(b6 & 0x1f < 0x20) by (bit_vector);
    };
    assert(c.offset == off + (cursor - spec_header_len(o) * 4) / 8);
    // `20 + plen` is never the 0 sentinel, so the configured length is used
    assert(crate::ipv4::builder::spec_effective_total_len(c, plen) == c.total_len) by {
        assert(20 + plen != 0);
    };
}

impl Packet {
    /// The fragments of this datagram for the given MTU, lazily.
    pub fn fragments<'a>(&'a self, mtu: usize) -> (r: FragmentIterator<'a>)
        requires
            self@.len() >= 4,
            1 <= spec_total_len(self@) <= self@.len(),
        ensures
            r.buffer@ == self@.take(spec_total_len(self@) as int),
            r.mtu == mtu,
            r.cursor == spec_header_len(r.buffer@) * 4,
    {
        let total_len = self.total_len() as usize;
        FragmentIterator::new(slice_subrange(self.as_bytes(), 0, total_len), mtu)
    }
}

/// A lazy, finite, non-restartable source of MTU-sized fragments of one
/// datagram.
pub struct FragmentIterator<'a> {
    pub buffer: &'a [u8],
    pub cursor: usize,
    pub mtu: usize,
}

impl<'a> FragmentIterator<'a> {
    pub fn new(buffer: &'a [u8], mtu: usize) -> (r: Self)
        requires
            buffer@.len() >= 1,
        ensures
            r.buffer == buffer,
            r.mtu == mtu,
            r.cursor == spec_header_len(buffer@) * 4,
    {
        let header_bytes_len: usize = ((buffer[0] & 0x0f) as usize) * 4;
        FragmentIterator { buffer, cursor: header_bytes_len, mtu }
    }

    /// The next fragment; the origin's options are not carried over.
    pub fn next(&mut self) -> (r: Option<Packet>)
        requires
            spec_frag_wf(old(self).buffer@, old(self).mtu as int),
            old(self).cursor >= spec_header_len(old(self).buffer@) * 4,
        ensures
            final(self).buffer == old(self).buffer,
            final(self).mtu == old(self).mtu,
            old(self).cursor >= old(self).buffer@.len() ==> r is None && final(self).cursor
                == old(self).cursor,
            old(self).cursor < old(self).buffer@.len() ==> ({
                let o = old(self).buffer@;
                let plen = spec_frag_payload_len(
                    o.len() as int,
                    old(self).mtu as int,
                    old(self).cursor as int,
                );
                &&& final(self).cursor == old(self).cursor + plen
                &&& (r matches Some(p) && p@ == spec_fragment_bytes(
                    o,
                    old(self).mtu as int,
                    old(self).cursor as int,
                ))
            }),
    {
        if self.cursor >= self.buffer.len() {
            return None;
        }

        let ghost o = self.buffer@;
        let ghost cursor0 = self.cursor as int;
        let min_header_bytes_len: usize = (MIN_HEADER_LEN as usize) * 4;
        let remaining_bytes_len = self.buffer.len() - self.cursor;
        let is_last = remaining_bytes_len <= self.mtu - min_header_bytes_len;

        let nfb = (self.mtu - min_header_bytes_len) / 8;
        let payload_len = if is_last {
            remaining_bytes_len
        } else {
            nfb * 8
        };
        proof {
            let m = old(self).mtu as int;
            if !is_last {
                assert(spec_nfb(m) * 8 <= m - 20) by (nonlinear_arith)
                    requires m >= 28;
            }
            assert(payload_len == spec_frag_payload_len(o.len() as int, old(self).mtu as int,
                cursor0));
        }
        let payload = copy_range(self.buffer, self.cursor, self.cursor + payload_len);

        let oflags = self.buffer[6] >> 5;
        let flags = if !is_last {
            oflags | 0b001
        } else {
            oflags
        };

        let real_header_bytes_len: usize = ((self.buffer[0] & 0x0f) as usize) * 4;
        let orig_offset: usize = ((self.buffer[6] & 0x1f) as usize) * 256 + (
        self.buffer[7] as usize);
        proof {
            let b6 = o[6];
            assert(b6 & 0x1f < 0x20) by (bit_vector);
        }
        let fragment_offset: usize = orig_offset + (self.cursor - real_header_bytes_len) / 8;

        let bldr = PacketBuilder::default()
            .header_len(MIN_HEADER_LEN)
            .tos(self.buffer[1])
            .total_len((min_header_bytes_len + payload_len) as u16)
            .identification((self.buffer[4] as u16) * 256 + (self.buffer[5] as u16))
            .flags(flags)
            .offset(fragment_offset as u16)
            .ttl(self.buffer[8])
            .protocol(Protocol::from_u8(self.buffer[9]))
            .src_addr([self.buffer[12], self.buffer[13], self.buffer[14], self.buffer[15]])
            .dest_addr([self.buffer[16], self.buffer[17], self.buffer[18], self.buffer[19]])
            .payload(payload);

        proof {
            assert(bldr.cfg() =~= spec_fragment_cfg(o, old(self).mtu as int, cursor0));
        }
        let fragment_vec = bldr.build_vec();

        self.cursor = self.cursor + payload_len;

        Some(Packet::new_unchecked(fragment_vec))
    }
}

} // verus!
