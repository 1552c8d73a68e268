//! Fluent construction of a fresh IPv4 datagram buffer.

use vstd::prelude::*;
use vstd::slice::slice_subrange;

use crate::checksum::checksum_spec;
use crate::ipv4::packet;
use crate::ipv4::packet::{Packet, Protocol, MIN_HEADER_LEN, VERSION};

verus! {

/// Fluent configuration for one datagram; `build` writes it to the wire
/// format.
pub struct PacketBuilder {
    pub version: u8,
    pub header_len: u8,
    pub tos: u8,
    pub total_len: u16,
    pub identification: u16,
    pub flags: u8,
    pub offset: u16,
    pub ttl: u8,
    pub protocol: Protocol,
    pub checksum: u16,
    pub src_addr: [u8; 4],
    pub dest_addr: [u8; 4],
    pub payload: Vec<u8>,
}

/// The header fields of a datagram under construction, as spec data.
#[verifier::ext_equal]
pub ghost struct HeaderConfig {
    pub version: u8,
    pub header_len: u8,
    pub tos: u8,
    pub total_len: u16,
    pub identification: u16,
    pub flags: u8,
    pub offset: u16,
    pub ttl: u8,
    pub protocol: Protocol,
    pub checksum: u16,
    pub src_addr: Seq<u8>,
    pub dest_addr: Seq<u8>,
}

/// The total length that `build` writes: computed from the layout when the
/// configured one is the 0 sentinel.
pub open spec fn spec_effective_total_len(c: HeaderConfig, payload_len: int) -> u16 {
    if c.total_len == 0 {
        (c.header_len * 4 + payload_len) as u16
    } else {
        c.total_len
    }
}

/// Header byte `i` of the built datagram, with `tl` as total length and `ck`
/// in the checksum field.
pub open spec fn spec_built_byte(c: HeaderConfig, tl: u16, ck: u16, i: int) -> u8 {
    if i == 0 {
        ((c.version << 4) & 0xf0) | (c.header_len & 0x0f)
    } else if i == 1 {
        c.tos
    } else if i == 2 {
        (tl / 256) as u8
    } else if i == 3 {
        (tl % 256) as u8
    } else if i == 4 {
        (c.identification / 256) as u8
    } else if i == 5 {
        (c.identification % 256) as u8
    } else if i == 6 {
        ((c.flags << 5) & 0xe0) | (((c.offset / 256) as u8) & 0x1f)
    } else if i == 7 {
        (c.offset % 256) as u8
    } else if i == 8 {
        c.ttl
    } else if i == 9 {
        c.protocol.spec_to_u8()
    } else if i == 10 {
        (ck / 256) as u8
    } else if i == 11 {
        (ck % 256) as u8
    } else if 12 <= i < 16 {
        c.src_addr[i - 12]
    } else if 16 <= i < 20 {
        c.dest_addr[i - 16]
    } else {
        0
    }
}

/// The whole built buffer, with `ck` in the checksum field.
pub open spec fn spec_built_with_cfg(c: HeaderConfig, payload: Seq<u8>, ck: u16) -> Seq<u8> {
    Seq::new(
        (c.header_len * 4 + payload.len()) as nat,
        |i: int|
            if i < c.header_len * 4 {
                spec_built_byte(c, spec_effective_total_len(c, payload.len() as int), ck, i)
            } else {
                payload[i - c.header_len * 4]
            },
    )
}

/// What building produces: the configured checksum verbatim, or, for the 0
/// sentinel, the internet checksum of the header span.
pub open spec fn spec_build_cfg(c: HeaderConfig, payload: Seq<u8>) -> Seq<u8> {
    if c.checksum == 0 {
        spec_built_with_cfg(
            c,
            payload,
            checksum_spec(spec_built_with_cfg(c, payload, 0).take(c.header_len * 4)),
        )
    } else {
        spec_built_with_cfg(c, payload, c.checksum)
    }
}

impl PacketBuilder {
    /// This builder's header fields, as spec data.
    pub open spec fn cfg(self) -> HeaderConfig {
        HeaderConfig {
            version: self.version,
            header_len: self.header_len,
            tos: self.tos,
            total_len: self.total_len,
            identification: self.identification,
            flags: self.flags,
            offset: self.offset,
            ttl: self.ttl,
            protocol: self.protocol,
            checksum: self.checksum,
            src_addr: self.src_addr@,
            dest_addr: self.dest_addr@,
        }
    }
}

pub open spec fn spec_built_with(b: PacketBuilder, ck: u16) -> Seq<u8> {
    spec_built_with_cfg(b.cfg(), b.payload@, ck)
}

pub open spec fn spec_build(b: PacketBuilder) -> Seq<u8> {
    spec_build_cfg(b.cfg(), b.payload@)
}

/// A vector of `n` zero bytes.
fn zero_vec(n: usize) -> (r: Vec<u8>)
    ensures
        r@ == Seq::new(n as nat, |i: int| 0u8),
{
    let mut r: Vec<u8> = Vec::new();
    let mut i: usize = 0;
    while i < n
        invariant
            i <= n,
            r@ =~= Seq::new(i as nat, |j: int| 0u8),
        decreases n - i,
    {
        r.push(0);
        i = i + 1;
    }
    proof {
        assert(r@ =~= Seq::new(n as nat, |j: int| 0u8));
    }
    r
}

impl PacketBuilder {
    pub fn version(self, version: u8) -> (r: Self)
        ensures
            r == (PacketBuilder { version, ..self }),
    {
        PacketBuilder { version, ..self }
    }

    pub fn header_len(self, header_len: u8) -> (r: Self)
        ensures
            r == (PacketBuilder { header_len, ..self }),
    {
        PacketBuilder { header_len, ..self }
    }

    pub fn tos(self, tos: u8) -> (r: Self)
        ensures
            r == (PacketBuilder { tos, ..self }),
    {
        PacketBuilder { tos, ..self }
    }

    pub fn total_len(self, total_len: u16) -> (r: Self)
        ensures
            r == (PacketBuilder { total_len, ..self }),
    {
        PacketBuilder { total_len, ..self }
    }

    pub fn identification(self, identification: u16) -> (r: Self)
        ensures
            r == (PacketBuilder { identification, ..self }),
    {
        PacketBuilder { identification, ..self }
    }

    pub fn flags(self, flags: u8) -> (r: Self)
        ensures
            r == (PacketBuilder { flags, ..self }),
    {
        PacketBuilder { flags, ..self }
    }

    pub fn offset(self, offset: u16) -> (r: Self)
        ensures
            r == (PacketBuilder { offset, ..self }),
    {
        PacketBuilder { offset, ..self }
    }

    pub fn ttl(self, ttl: u8) -> (r: Self)
        ensures
            r == (PacketBuilder { ttl, ..self }),
    {
        PacketBuilder { ttl, ..self }
    }

    pub fn protocol(self, protocol: Protocol) -> (r: Self)
        ensures
            r == (PacketBuilder { protocol, ..self }),
    {
        PacketBuilder { protocol, ..self }
    }

    pub fn checksum(self, checksum: u16) -> (r: Self)
        ensures
            r == (PacketBuilder { checksum, ..self }),
    {
        PacketBuilder { checksum, ..self }
    }

    pub fn src_addr(self, src_addr: [u8; 4]) -> (r: Self)
        ensures
            r == (PacketBuilder { src_addr, ..self }),
    {
        PacketBuilder { src_addr, ..self }
    }

    pub fn dest_addr(self, dest_addr: [u8; 4]) -> (r: Self)
        ensures
            r == (PacketBuilder { dest_addr, ..self }),
    {
        PacketBuilder { dest_addr, ..self }
    }

    pub fn payload(self, payload: Vec<u8>) -> (r: Self)
        ensures
            r == (PacketBuilder { payload, ..self }),
    {
        PacketBuilder { payload, ..self }
    }

    /// Writes the configured datagram into a fresh buffer: a zeroed header
    /// area followed by the payload, every field set through the view, and
    /// the header checksum computed over the header span when the configured
    /// checksum is the 0 sentinel.
    pub fn build_vec(self) -> (r: Vec<u8>)
        requires
            MIN_HEADER_LEN <= self.header_len <= 15,
            self.header_len * 4 + self.payload@.len() <= 0xffff,
        ensures
            r@ == spec_build(self),
    {
        let ghost orig = self;
        let PacketBuilder {
            version,
            header_len,
            tos,
            total_len,
            identification,
            flags,
            offset,
            ttl,
            protocol,
            checksum: checksum_field,
            src_addr,
            dest_addr,
            payload,
        } = self;

        let header_bytes: usize = (header_len as usize) * 4;
        let eff_total: u16 = if total_len == 0 {
            (header_bytes + payload.len()) as u16
        } else {
            total_len
        };

        let mut buffer: Vec<u8> = zero_vec(header_bytes);
        let mut payload_vec = payload;
        buffer.append(&mut payload_vec);

        let mut packet = Packet::new_unchecked(buffer);
        packet.set_version(version);
        packet.set_header_len(header_len);
        packet.set_tos(tos);
        packet.set_total_len(eff_total);
        packet.set_identification(identification);
        packet.set_flags(flags);
        packet.set_offset(offset);
        packet.set_ttl(ttl);
        packet.set_protocol(protocol);
        packet.set_checksum(checksum_field);
        packet.set_src_addr(src_addr);
        packet.set_dest_addr(dest_addr);

        proof {
            assert((0u8 & 0x0f) | (version << 4) == (version << 4) as u8) by (bit_vector);
            assert((0u8 & 0x1f) | (flags << 5) == (flags << 5) as u8) by (bit_vector);
            assert(packet@ =~= spec_built_with(orig, orig.checksum));
        }

        if checksum_field == 0 {
            let header_slice = slice_subrange(packet.as_bytes(), 0, header_bytes);
            proof {
                assert(header_slice@ =~= spec_built_with(orig, 0).take(orig.header_len * 4));
            }
            let c = crate::checksum::checksum(header_slice);
            packet.set_checksum(c);
            proof {
                assert(packet@ =~= spec_built_with(
                    orig,
                    checksum_spec(spec_built_with(orig, 0).take(orig.header_len * 4)),
                ));
            }
        }

        packet.into_vec()
    }

    /// `build_vec`, wrapped as a packet view.
    pub fn build(self) -> (r: Packet)
        requires
            MIN_HEADER_LEN <= self.header_len <= 15,
            self.header_len * 4 + self.payload@.len() <= 0xffff,
        ensures
            r@ == spec_build(self),
    {
        Packet::new_unchecked(self.build_vec())
    }
}

/// Every header field of `spec_built_with_cfg(c, payload, ck)` reads back as
/// configured.
pub proof fn lemma_built_with_fields(c: HeaderConfig, payload: Seq<u8>, ck: u16)
    requires
        MIN_HEADER_LEN <= c.header_len <= 15,
        c.header_len * 4 + payload.len() <= 0xffff,
        c.src_addr.len() == 4,
        c.dest_addr.len() == 4,
    ensures
        ({
            let r = spec_built_with_cfg(c, payload, ck);
            &&& r.len() == c.header_len * 4 + payload.len()
            &&& packet::spec_version(r) == c.version & 0x0f
            &&& packet::spec_header_len(r) == c.header_len
            &&& packet::spec_tos(r) == c.tos
            &&& packet::spec_total_len(r) == spec_effective_total_len(c, payload.len() as int)
            &&& packet::spec_identification(r) == c.identification
            &&& packet::spec_flags(r) == c.flags & 0x07
            &&& packet::spec_offset(r) == c.offset % 0x2000
            &&& packet::spec_ttl(r) == c.ttl
            &&& packet::spec_protocol(r) == Protocol::spec_from_u8(c.protocol.spec_to_u8())
            &&& packet::spec_checksum(r) == ck
            &&& packet::spec_src_addr(r) == c.src_addr
            &&& packet::spec_dest_addr(r) == c.dest_addr
            &&& packet::spec_payload(r) == payload
        }),
{
    let r = spec_built_with_cfg(c, payload, ck);
    let v = c.version;
    let hl = c.header_len;
    let f = c.flags;
    let off = c.offset;
    let tl = spec_effective_total_len(c, payload.len() as int);
    let oh = (off / 256) as u8;

    assert((((v << 4) & 0xf0) | (hl & 0x0f)) >> 4 == v & 0x0f) by (bit_vector);
    assert(((((v << 4) & 0xf0) | (hl & 0x0f)) & 0x0f) == hl) by (bit_vector)
        requires hl <= 15;
    assert(packet::spec_total_len(r) == tl) by {
        assert(r[2] == (tl / 256) as u8 && r[3] == (tl % 256) as u8);
        assert((tl / 256) * 256 + tl % 256 == tl);
    };
    assert(packet::spec_identification(r) == c.identification) by {
        assert((c.identification / 256) * 256 + c.identification % 256 == c.identification);
    };
    assert((((f << 5) & 0xe0) | (oh & 0x1f)) >> 5 == f & 0x07) by (bit_vector);
    assert(packet::spec_offset(r) == off % 0x2000) by {
        assert(((((f << 5) & 0xe0) | (oh & 0x1f)) & 0x1f) == oh & 0x1f) by (bit_vector);
        assert(oh & 0x1f == oh % 32) by (bit_vector);
        assert(oh == off / 256) by {
            assert(off / 256 <= 255);
        };
        assert((off / 256 % 32) * 256 + off % 256 == off % 0x2000) by (nonlinear_arith);
    };
    assert(packet::spec_checksum(r) == ck) by {
        assert((ck / 256) * 256 + ck % 256 == ck);
    };
    assert(packet::spec_src_addr(r) =~= c.src_addr);
    assert(packet::spec_dest_addr(r) =~= c.dest_addr);
    assert(packet::spec_payload(r) =~= payload);
}

/// Round trip at the configuration level: building a datagram and reading it
/// back through the view yields the configured fields, and, where the
/// checksum was left to be computed, the header span then checksums to zero.
pub proof fn lemma_build_cfg_round_trip(c: HeaderConfig, payload: Seq<u8>)
    requires
        MIN_HEADER_LEN <= c.header_len <= 15,
        c.header_len * 4 + payload.len() <= 0xffff,
        c.src_addr.len() == 4,
        c.dest_addr.len() == 4,
    ensures
        ({
            let r = spec_build_cfg(c, payload);
            &&& r.len() == c.header_len * 4 + payload.len()
            &&& packet::spec_version(r) == c.version & 0x0f
            &&& packet::spec_header_len(r) == c.header_len
            &&& packet::spec_tos(r) == c.tos
            &&& packet::spec_total_len(r) == spec_effective_total_len(c, payload.len() as int)
            &&& packet::spec_identification(r) == c.identification
            &&& packet::spec_flags(r) == c.flags & 0x07
            &&& packet::spec_offset(r) == c.offset % 0x2000
            &&& packet::spec_ttl(r) == c.ttl
            &&& packet::spec_protocol(r) == Protocol::spec_from_u8(c.protocol.spec_to_u8())
            &&& c.checksum != 0 ==> packet::spec_checksum(r) == c.checksum
            &&& packet::spec_src_addr(r) == c.src_addr
            &&& packet::spec_dest_addr(r) == c.dest_addr
            &&& packet::spec_payload(r) == payload
            &&& c.checksum == 0 ==> checksum_spec(r.take(c.header_len * 4)) == 0
        }),
{
    let hb = c.header_len * 4;
    if c.checksum == 0 {
        let h0 = spec_built_with_cfg(c, payload, 0).take(hb);
        let ck = checksum_spec(h0);
        lemma_built_with_fields(c, payload, ck);
        assert(h0[10] == 0 && h0[11] == 0);
        crate::checksum::lemma_checksum_self_verifying(h0, 10);
        let h2 = h0.update(10, (ck / 256) as u8).update(11, (ck % 256) as u8);
        assert(spec_build_cfg(c, payload).take(hb) =~= h2);
    } else {
        lemma_built_with_fields(c, payload, c.checksum);
    }
}

/// Round trip for a configured builder: `build`, then reading each field
/// through the view, yields the configuration verbatim.
pub proof fn lemma_build_round_trip(b: PacketBuilder)
    requires
        MIN_HEADER_LEN <= b.header_len <= 15,
        b.header_len * 4 + b.payload@.len() <= 0xffff,
    ensures
        ({
            let r = spec_build(b);
            &&& r.len() == b.header_len * 4 + b.payload@.len()
            &&& packet::spec_version(r) == b.version & 0x0f
            &&& packet::spec_header_len(r) == b.header_len
            &&& packet::spec_tos(r) == b.tos
            &&& packet::spec_total_len(r) == spec_effective_total_len(
                b.cfg(),
                b.payload@.len() as int,
            )
            &&& packet::spec_identification(r) == b.identification
            &&& packet::spec_flags(r) == b.flags & 0x07
            &&& packet::spec_offset(r) == b.offset % 0x2000
            &&& packet::spec_ttl(r) == b.ttl
            &&& packet::spec_protocol(r) == Protocol::spec_from_u8(b.protocol.spec_to_u8())
            &&& b.checksum != 0 ==> packet::spec_checksum(r) == b.checksum
            &&& packet::spec_src_addr(r) == b.src_addr@
            &&& packet::spec_dest_addr(r) == b.dest_addr@
            &&& packet::spec_payload(r) == b.payload@
            &&& b.checksum == 0 ==> checksum_spec(r.take(b.header_len * 4)) == 0
        }),
{
    lemma_build_cfg_round_trip(b.cfg(), b.payload@);
}

impl Default for PacketBuilder {
    /// Version 4, minimum header, every numeric field 0, addresses 0.0.0.0,
    /// empty payload, unknown protocol.
    fn default() -> (r: Self)
        ensures
            r.version == VERSION,
            r.header_len == MIN_HEADER_LEN,
            r.tos == 0,
            r.total_len == 0,
            r.identification == 0,
            r.flags == 0,
            r.offset == 0,
            r.ttl == 0,
            r.protocol == Protocol::Unknown(0),
            r.checksum == 0,
            r.src_addr@ == Seq::new(4, |i: int| 0u8),
            r.dest_addr@ == Seq::new(4, |i: int| 0u8),
            r.payload@ == Seq::<u8>::empty(),
    {
        let r = PacketBuilder {
            version: VERSION,
            header_len: MIN_HEADER_LEN,
            tos: 0,
            total_len: 0,
            identification: 0,
            flags: 0,
            offset: 0,
            ttl: 0,
            protocol: Protocol::Unknown(0),
            checksum: 0,
            src_addr: [0, 0, 0, 0],
            dest_addr: [0, 0, 0, 0],
            payload: Vec::new(),
        };
        proof {
            assert(r.src_addr@ =~= Seq::new(4, |i: int| 0u8));
            assert(r.dest_addr@ =~= Seq::new(4, |i: int| 0u8));
            assert(r.payload@ =~= Seq::<u8>::empty());
        }
        r
    }
}

} // verus!
