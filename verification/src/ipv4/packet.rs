//! Typed, bounds-checked accessors over an IPv4 datagram held in a byte
//! buffer (RFC 791), together with option iteration.

use vstd::prelude::*;
use vstd::pervasive::VecAdditionalExecFns;
use vstd::slice::{slice_subrange, slice_to_vec};

use crate::ipv4::error::Error;

verus! {

/// A vector copy of `s[i..j]`.
pub fn copy_range(s: &[u8], i: usize, j: usize) -> (r: Vec<u8>)
    requires
        i <= j <= s@.len(),
    ensures
        r@ == s@.subrange(i as int, j as int),
{
    slice_to_vec(slice_subrange(s, i, j))
}

pub const VERSION: u8 = 4;

/// Minimum header length, in 32-bit words.
pub const MIN_HEADER_LEN: u8 = 5;

/// Assigned internet protocol numbers defined in RFC 790 and other RFCs;
/// unrecognised values round-trip through `Unknown`.
#[derive(Debug, Clone, Copy, PartialEq, Eq, Structural)]
pub enum Protocol {
    Icmp,
    Tcp,
    Udp,
    Unknown(u8),
}

impl Protocol {
    pub open spec fn spec_from_u8(value: u8) -> Protocol {
        if value == 1 {
            Protocol::Icmp
        } else if value == 6 {
            Protocol::Tcp
        } else if value == 17 {
            Protocol::Udp
        } else {
            Protocol::Unknown(value)
        }
    }

    pub open spec fn spec_to_u8(self) -> u8 {
        match self {
            Protocol::Icmp => 1,
            Protocol::Tcp => 6,
            Protocol::Udp => 17,
            Protocol::Unknown(value) => value,
        }
    }

    pub fn from_u8(value: u8) -> (r: Protocol)
        ensures
            r == Protocol::spec_from_u8(value),
    {
        match value {
            1 => Protocol::Icmp,
            6 => Protocol::Tcp,
            17 => Protocol::Udp,
            _ => Protocol::Unknown(value),
        }
    }

    pub fn to_u8(self) -> (r: u8)
        ensures
            r == self.spec_to_u8(),
    {
        match self {
            Protocol::Icmp => 1,
            Protocol::Tcp => 6,
            Protocol::Udp => 17,
            Protocol::Unknown(value) => value,
        }
    }
}

/// Unrecognised protocol numbers are preserved verbatim on the wire.
pub proof fn lemma_protocol_round_trip(value: u8)
    ensures
        Protocol::spec_from_u8(value).spec_to_u8() == value,
{
}

/// The 16-bit big-endian word at bytes `i`, `i + 1`.
pub open spec fn spec_be16(b: Seq<u8>, i: int) -> u16 {
    (b[i] * 256 + b[i + 1]) as u16
}

pub open spec fn spec_version(b: Seq<u8>) -> u8 {
    b[0] >> 4
}

/// Header length in 32-bit words.
pub open spec fn spec_header_len(b: Seq<u8>) -> u8 {
    b[0] & 0x0f
}

pub open spec fn spec_tos(b: Seq<u8>) -> u8 {
    b[1]
}

pub open spec fn spec_total_len(b: Seq<u8>) -> u16 {
    spec_be16(b, 2)
}

pub open spec fn spec_identification(b: Seq<u8>) -> u16 {
    spec_be16(b, 4)
}

/// The top three bits of byte 6: reserved, DF, MF.
pub open spec fn spec_flags(b: Seq<u8>) -> u8 {
    b[6] >> 5
}

/// Fragment offset in 8-byte units: the low 13 bits of bytes 6..8.
pub open spec fn spec_offset(b: Seq<u8>) -> u16 {
    ((b[6] & 0x1f) * 256 + b[7]) as u16
}

pub open spec fn spec_ttl(b: Seq<u8>) -> u8 {
    b[8]
}

pub open spec fn spec_protocol(b: Seq<u8>) -> Protocol {
    Protocol::spec_from_u8(b[9])
}

pub open spec fn spec_checksum(b: Seq<u8>) -> u16 {
    spec_be16(b, 10)
}

pub open spec fn spec_src_addr(b: Seq<u8>) -> Seq<u8> {
    b.subrange(12, 16)
}

pub open spec fn spec_dest_addr(b: Seq<u8>) -> Seq<u8> {
    b.subrange(16, 20)
}

/// The bytes after the header: everything from `IHL * 4` on.
pub open spec fn spec_payload(b: Seq<u8>) -> Seq<u8> {
    b.skip(spec_header_len(b) * 4)
}

pub open spec fn spec_more_fragments(b: Seq<u8>) -> bool {
    spec_flags(b) & 0b001 == 0b001
}

pub open spec fn spec_dont_fragment(b: Seq<u8>) -> bool {
    spec_flags(b) & 0b010 == 0b010
}

/// What checked construction guarantees of a buffer.
pub open spec fn spec_wf(b: Seq<u8>) -> bool {
    &&& b.len() >= 4
    &&& spec_version(b) == VERSION
    &&& spec_header_len(b) >= MIN_HEADER_LEN
    &&& spec_total_len(b) == b.len()
}

/// An IPv4 datagram view over an owned byte buffer.
#[derive(Debug)]
pub struct Packet {
    buffer: Vec<u8>,
}

impl View for Packet {
    type V = Seq<u8>;

    closed spec fn view(&self) -> Seq<u8> {
        self.buffer@
    }
}

impl Packet {
    /// Wraps a buffer without validation.
    pub fn new_unchecked(buffer: Vec<u8>) -> (r: Packet)
        ensures
            r@ == buffer@,
    {
        Packet { buffer }
    }

    /// Wraps a buffer, validating version, header length and total length.
    pub fn new_checked(buffer: Vec<u8>) -> (r: Result<Packet, Error>)
        ensures
            r is Ok <==> spec_wf(buffer@),
            r matches Ok(p) ==> p@ == buffer@,
            buffer@.len() < 4 ==> r == Err::<Packet, Error>(Error::InvalidTotalLen),
            buffer@.len() >= 4 && spec_version(buffer@) != VERSION ==> r == Err::<Packet, Error>(
                Error::InvalidVersion,
            ),
            buffer@.len() >= 4 && spec_version(buffer@) == VERSION && spec_header_len(buffer@)
                < MIN_HEADER_LEN ==> r == Err::<Packet, Error>(Error::InvalidHeaderLen),
            buffer@.len() >= 4 && spec_version(buffer@) == VERSION && spec_header_len(buffer@)
                >= MIN_HEADER_LEN && spec_total_len(buffer@) != buffer@.len() ==> r == Err::<
                Packet,
                Error,
            >(Error::InvalidTotalLen),
    {
        if buffer.len() < 4 {
            return Err(Error::InvalidTotalLen);
        }
        let packet = Packet::new_unchecked(buffer);
        if let Err(e) = packet.check_version() {
            return Err(e);
        }
        if let Err(e) = packet.check_len() {
            return Err(e);
        }
        Ok(packet)
    }

    pub fn check_version(&self) -> (r: Result<(), Error>)
        requires
            self@.len() >= 1,
        ensures
            r is Ok <==> spec_version(self@) == VERSION,
            r is Err ==> r == Err::<(), Error>(Error::InvalidVersion),
    {
        if self.version() != VERSION {
            return Err(Error::InvalidVersion);
        }
        Ok(())
    }

    pub fn check_len(&self) -> (r: Result<(), Error>)
        requires
            self@.len() >= 4,
        ensures
            r is Ok <==> spec_header_len(self@) >= MIN_HEADER_LEN && spec_total_len(self@)
                == self@.len(),
            spec_header_len(self@) < MIN_HEADER_LEN ==> r == Err::<(), Error>(
                Error::InvalidHeaderLen,
            ),
            spec_header_len(self@) >= MIN_HEADER_LEN && spec_total_len(self@) != self@.len()
                ==> r == Err::<(), Error>(Error::InvalidTotalLen),
    {
        let header_len = self.header_len();
        let total_len = self.total_len();

        if header_len < MIN_HEADER_LEN {
            return Err(Error::InvalidHeaderLen);
        }
        if total_len as usize != self.buffer.len() {
            return Err(Error::InvalidTotalLen);
        }

        Ok(())
    }

    pub fn version(&self) -> (r: u8)
        requires
            self@.len() >= 1,
        ensures
            r == spec_version(self@),
    {
        self.buffer[0] >> 4
    }

    pub fn header_len(&self) -> (r: u8)
        requires
            self@.len() >= 1,
        ensures
            r == spec_header_len(self@),
    {
        self.buffer[0] & 0x0f
    }

    pub fn tos(&self) -> (r: u8)
        requires
            self@.len() >= 2,
        ensures
            r == spec_tos(self@),
    {
        self.buffer[1]
    }

    pub fn total_len(&self) -> (r: u16)
        requires
            self@.len() >= 4,
        ensures
            r == spec_total_len(self@),
    {
        (self.buffer[2] as u16) * 256 + (self.buffer[3] as u16)
    }

    pub fn identification(&self) -> (r: u16)
        requires
            self@.len() >= 6,
        ensures
            r == spec_identification(self@),
    {
        (self.buffer[4] as u16) * 256 + (self.buffer[5] as u16)
    }

    pub fn flags(&self) -> (r: u8)
        requires
            self@.len() >= 7,
        ensures
            r == spec_flags(self@),
    {
        self.buffer[6] >> 5
    }

    pub fn offset(&self) -> (r: u16)
        requires
            self@.len() >= 8,
        ensures
            r == spec_offset(self@),
    {
        ((self.buffer[6] & 0x1f) as u16) * 256 + (self.buffer[7] as u16)
    }

    pub fn ttl(&self) -> (r: u8)
        requires
            self@.len() >= 9,
        ensures
            r == spec_ttl(self@),
    {
        self.buffer[8]
    }

    pub fn protocol(&self) -> (r: Protocol)
        requires
            self@.len() >= 10,
        ensures
            r == spec_protocol(self@),
    {
        Protocol::from_u8(self.buffer[9])
    }

    pub fn checksum(&self) -> (r: u16)
        requires
            self@.len() >= 12,
        ensures
            r == spec_checksum(self@),
    {
        (self.buffer[10] as u16) * 256 + (self.buffer[11] as u16)
    }

    pub fn src_addr(&self) -> (r: [u8; 4])
        requires
            self@.len() >= 16,
        ensures
            r@ == spec_src_addr(self@),
    {
        let r = [self.buffer[12], self.buffer[13], self.buffer[14], self.buffer[15]];
        proof {
            assert(r@ =~= spec_src_addr(self@));
        }
        r
    }

    pub fn dest_addr(&self) -> (r: [u8; 4])
        requires
            self@.len() >= 20,
        ensures
            r@ == spec_dest_addr(self@),
    {
        let r = [self.buffer[16], self.buffer[17], self.buffer[18], self.buffer[19]];
        proof {
            assert(r@ =~= spec_dest_addr(self@));
        }
        r
    }

    pub fn more_fragments(&self) -> (r: bool)
        requires
            self@.len() >= 7,
        ensures
            r == spec_more_fragments(self@),
    {
        self.flags() & 0b001 == 0b001
    }

    pub fn dont_fragment(&self) -> (r: bool)
        requires
            self@.len() >= 7,
        ensures
            r == spec_dont_fragment(self@),
    {
        self.flags() & 0b010 == 0b010
    }

    pub fn payload(&self) -> (r: &[u8])
        requires
            self@.len() >= 1,
            spec_header_len(self@) * 4 <= self@.len(),
        ensures
            r@ == spec_payload(self@),
    {
        let header_bytes_len: usize = (self.header_len() as usize) * 4;
        slice_subrange(self.buffer.as_slice(), header_bytes_len, self.buffer.len())
    }

    /// The whole buffer, header included.
    pub fn as_bytes(&self) -> (r: &[u8])
        ensures
            r@ == self@,
    {
        self.buffer.as_slice()
    }

    pub fn into_vec(self) -> (r: Vec<u8>)
        ensures
            r@ == self@,
    {
        self.buffer
    }

    pub fn set_version(&mut self, version: u8)
        requires
            old(self)@.len() >= 1,
        ensures
            final(self)@ == old(self)@.update(0, (old(self)@[0] & 0x0f) | (version << 4)),
    {
        let b0 = self.buffer[0];
        self.buffer.set(0, (b0 & 0x0f) | (version << 4));
    }

    pub fn set_header_len(&mut self, header_len: u8)
        requires
            old(self)@.len() >= 1,
        ensures
            final(self)@ == old(self)@.update(0, (old(self)@[0] & 0xf0) | (header_len & 0x0f)),
    {
        let b0 = self.buffer[0];
        self.buffer.set(0, (b0 & 0xf0) | (header_len & 0x0f));
    }

    pub fn set_tos(&mut self, tos: u8)
        requires
            old(self)@.len() >= 2,
        ensures
            final(self)@ == old(self)@.update(1, tos),
    {
        self.buffer.set(1, tos);
    }

    pub fn set_total_len(&mut self, total_len: u16)
        requires
            old(self)@.len() >= 4,
        ensures
            final(self)@ == old(self)@.update(2, (total_len / 256) as u8).update(
                3,
                (total_len % 256) as u8,
            ),
            spec_total_len(final(self)@) == total_len,
    {
        self.buffer.set(2, (total_len / 256) as u8);
        self.buffer.set(3, (total_len % 256) as u8);
    }

    pub fn set_identification(&mut self, identification: u16)
        requires
            old(self)@.len() >= 6,
        ensures
            final(self)@ == old(self)@.update(4, (identification / 256) as u8).update(
                5,
                (identification % 256) as u8,
            ),
            spec_identification(final(self)@) == identification,
    {
        self.buffer.set(4, (identification / 256) as u8);
        self.buffer.set(5, (identification % 256) as u8);
    }

    /// Writes the top three bits of byte 6; the fragment offset is untouched.
    pub fn set_flags(&mut self, flags: u8)
        requires
            old(self)@.len() >= 7,
        ensures
            final(self)@ == old(self)@.update(6, (old(self)@[6] & 0x1f) | (flags << 5)),
    {
        let b6 = self.buffer[6];
        self.buffer.set(6, (b6 & 0x1f) | (flags << 5));
    }

    /// Writes the low 13 bits of bytes 6..8; the flags are untouched.
    pub fn set_offset(&mut self, offset: u16)
        requires
            old(self)@.len() >= 8,
        ensures
            final(self)@ == old(self)@.update(
                6,
                (old(self)@[6] & 0xe0) | (((offset / 256) as u8) & 0x1f),
            ).update(7, (offset % 256) as u8),
    {
        let b6 = self.buffer[6];
        self.buffer.set(6, (b6 & 0xe0) | (((offset / 256) as u8) & 0x1f));
        self.buffer.set(7, (offset % 256) as u8);
    }

    pub fn set_ttl(&mut self, ttl: u8)
        requires
            old(self)@.len() >= 9,
        ensures
            final(self)@ == old(self)@.update(8, ttl),
    {
        self.buffer.set(8, ttl);
    }

    pub fn set_protocol(&mut self, protocol: Protocol)
        requires
            old(self)@.len() >= 10,
        ensures
            final(self)@ == old(self)@.update(9, protocol.spec_to_u8()),
    {
        self.buffer.set(9, protocol.to_u8());
    }

    pub fn set_checksum(&mut self, checksum: u16)
        requires
            old(self)@.len() >= 12,
        ensures
            final(self)@ == old(self)@.update(10, (checksum / 256) as u8).update(
                11,
                (checksum % 256) as u8,
            ),
            spec_checksum(final(self)@) == checksum,
    {
        self.buffer.set(10, (checksum / 256) as u8);
        self.buffer.set(11, (checksum % 256) as u8);
    }

    pub fn set_src_addr(&mut self, src_addr: [u8; 4])
        requires
            old(self)@.len() >= 16,
        ensures
            final(self)@ == old(self)@.update(12, src_addr[0]).update(13, src_addr[1]).update(
                14,
                src_addr[2],
            ).update(15, src_addr[3]),
            spec_src_addr(final(self)@) == src_addr@,
    {
        self.buffer.set(12, src_addr[0]);
        self.buffer.set(13, src_addr[1]);
        self.buffer.set(14, src_addr[2]);
        self.buffer.set(15, src_addr[3]);
        proof {
            assert(spec_src_addr(self@) =~= src_addr@);
        }
    }

    pub fn set_dest_addr(&mut self, dest_addr: [u8; 4])
        requires
            old(self)@.len() >= 20,
        ensures
            final(self)@ == old(self)@.update(16, dest_addr[0]).update(17, dest_addr[1]).update(
                18,
                dest_addr[2],
            ).update(19, dest_addr[3]),
            spec_dest_addr(final(self)@) == dest_addr@,
    {
        self.buffer.set(16, dest_addr[0]);
        self.buffer.set(17, dest_addr[1]);
        self.buffer.set(18, dest_addr[2]);
        self.buffer.set(19, dest_addr[3]);
        proof {
            assert(spec_dest_addr(self@) =~= dest_addr@);
        }
    }

    /// Iterates over the options between the fixed header and `IHL * 4`.
    pub fn options<'a>(&'a self) -> (r: OptionIterator<'a>)
        requires
            spec_header_len(self@) >= MIN_HEADER_LEN,
            spec_header_len(self@) * 4 <= self@.len(),
        ensures
            r.buffer@ == self@.subrange(20, spec_header_len(self@) * 4),
            r.cursor == 0,
    {
        let header_bytes_len: usize = (self.header_len() as usize) * 4;
        OptionIterator::new(slice_subrange(self.buffer.as_slice(), 20, header_bytes_len))
    }

    /// Overwrites the start of the payload area with `data`.
    pub fn set_payload(&mut self, data: &[u8])
        requires
            old(self)@.len() >= 1,
            spec_header_len(old(self)@) >= MIN_HEADER_LEN,
            spec_header_len(old(self)@) * 4 + data@.len() <= old(self)@.len(),
        ensures
            final(self)@.len() == old(self)@.len(),
            spec_header_len(final(self)@) == spec_header_len(old(self)@),
            forall|i: int|
                0 <= i < final(self)@.len() && !(spec_header_len(old(self)@) * 4 <= i
                    < spec_header_len(old(self)@) * 4 + data@.len()) ==> final(self)@[i] == old(
                    self,
                )@[i],
            forall|i: int|
                0 <= i < data@.len() ==> final(self)@[spec_header_len(old(self)@) * 4 + i]
                    == data@[i],
    {
        let start: usize = (self.header_len() as usize) * 4;
        let n: usize = data.len();
        let buflen: usize = self.buffer.len();
        let mut i: usize = 0;
        while i < n
            invariant
                start == spec_header_len(old(self)@) * 4,
                n == data@.len(),
                old(self)@.len() == buflen,
                start + n <= buflen,
                i <= n,
                self@.len() == old(self)@.len(),
                forall|j: int|
                    0 <= j < self@.len() && !(start <= j < start + i) ==> self@[j] == old(
                        self,
                    )@[j],
                forall|j: int| 0 <= j < i ==> self@[start + j] == data@[j],
            decreases data@.len() - i,
        {
            self.buffer.set(start + i, data[i]);
            i = i + 1;
        }
    }
}

/// Option class sub-field of an option type byte; unrecognised values
/// round-trip through `Unknown`.
#[derive(Debug, Clone, Copy, PartialEq, Eq, Structural)]
pub enum OptionClass {
    Control,
    DebuggingAndMeasurement,
    Unknown(u8),
}

impl OptionClass {
    pub open spec fn spec_from_u8(value: u8) -> OptionClass {
        if value == 0 {
            OptionClass::Control
        } else if value == 2 {
            OptionClass::DebuggingAndMeasurement
        } else {
            OptionClass::Unknown(value)
        }
    }

    pub open spec fn spec_to_u8(self) -> u8 {
        match self {
            OptionClass::Control => 0,
            OptionClass::DebuggingAndMeasurement => 2,
            OptionClass::Unknown(value) => value,
        }
    }

    pub fn from_u8(value: u8) -> (r: OptionClass)
        ensures
            r == OptionClass::spec_from_u8(value),
    {
        if value == 0 {
            OptionClass::Control
        } else if value == 2 {
            OptionClass::DebuggingAndMeasurement
        } else {
            OptionClass::Unknown(value)
        }
    }

    pub fn to_u8(self) -> (r: u8)
        ensures
            r == self.spec_to_u8(),
    {
        match self {
            OptionClass::Control => 0,
            OptionClass::DebuggingAndMeasurement => 2,
            OptionClass::Unknown(value) => value,
        }
    }
}

/// Unrecognised option classes are preserved verbatim on the wire.
pub proof fn lemma_option_class_round_trip(value: u8)
    ensures
        OptionClass::spec_from_u8(value).spec_to_u8() == value,
{
}

/// Internet option kinds predefined in RFC 791.
#[derive(Debug, Clone, Copy, PartialEq, Eq, Structural)]
pub enum OptionKind {
    End,
    NoOperation,
    Security,
    LooseSourceRouting,
    StrictSourceRouting,
    RecordRoute,
    StreamId,
    Timestamp,
    Unknown,
}

/// The kind encoded by an option type byte.
pub open spec fn spec_option_kind(t: u8) -> OptionKind {
    let class = (t & 0x60) >> 5;
    let number = t & 0x1f;
    if class == 0 && number == 0 {
        OptionKind::End
    } else if class == 0 && number == 1 {
        OptionKind::NoOperation
    } else if class == 0 && number == 2 {
        OptionKind::Security
    } else if class == 0 && number == 3 {
        OptionKind::LooseSourceRouting
    } else if class == 0 && number == 7 {
        OptionKind::RecordRoute
    } else if class == 0 && number == 8 {
        OptionKind::StreamId
    } else if class == 0 && number == 9 {
        OptionKind::StrictSourceRouting
    } else if class == 2 && number == 4 {
        OptionKind::Timestamp
    } else {
        OptionKind::Unknown
    }
}

/// How many bytes the option starting at `b[0]` consumes.
pub open spec fn spec_option_consumed(b: Seq<u8>) -> int {
    match spec_option_kind(b[0]) {
        OptionKind::End => 1,
        OptionKind::NoOperation => 1,
        OptionKind::Unknown => 1,
        OptionKind::Security => 11,
        OptionKind::StreamId => 4,
        _ => b[1] as int,
    }
}

/// Whether `b` starts with a whole, well-formed option.
pub open spec fn spec_option_valid(b: Seq<u8>) -> bool {
    &&& b.len() >= 1
    &&& match spec_option_kind(b[0]) {
        OptionKind::End => true,
        OptionKind::NoOperation => true,
        OptionKind::Unknown => true,
        OptionKind::Security => b.len() >= 11,
        OptionKind::StreamId => b.len() >= 4,
        _ => b.len() >= 2 && 1 <= b[1] && b[1] <= b.len(),
    }
}

/// The leading type byte of an option: copied flag, class, number.
#[derive(Debug, Clone, Copy, PartialEq, Eq, Structural)]
pub struct OptionType(pub u8);

impl OptionType {
    pub fn from_u8(value: u8) -> (r: OptionType)
        ensures
            r.0 == value,
    {
        OptionType(value)
    }

    pub fn to_u8(self) -> (r: u8)
        ensures
            r == self.0,
    {
        self.0
    }

    /// Whether the option is copied into all fragments.
    pub fn copied(&self) -> (r: bool)
        ensures
            r == ((self.0 & 0x80) == 0x80),
    {
        self.0 & 0x80 == 0x80
    }

    pub fn class(&self) -> (r: OptionClass)
        ensures
            r == OptionClass::spec_from_u8((self.0 & 0x60) >> 5),
    {
        OptionClass::from_u8((self.0 & 0x60) >> 5)
    }

    pub fn number(&self) -> (r: u8)
        ensures
            r == self.0 & 0x1f,
    {
        self.0 & 0x1f
    }
}

/// One option within an IPv4 header, viewed over a borrowed byte span.
pub struct Ipv4Option<'a> {
    buffer: &'a [u8],
}

impl<'a> View for Ipv4Option<'a> {
    type V = Seq<u8>;

    closed spec fn view(&self) -> Seq<u8> {
        self.buffer@
    }
}

impl<'a> Ipv4Option<'a> {
    pub fn new_unchecked(buffer: &'a [u8]) -> (r: Ipv4Option<'a>)
        ensures
            r@ == buffer@,
    {
        Ipv4Option { buffer }
    }

    /// Validates that `buffer` starts with a whole option and truncates the
    /// view to exactly that option's bytes.
    pub fn new_checked(buffer: &'a [u8]) -> (r: Result<Ipv4Option<'a>, Error>)
        ensures
            r is Ok <==> spec_option_valid(buffer@),
            r matches Ok(o) ==> o@ == buffer@.take(spec_option_consumed(buffer@)),
            r is Ok ==> 1 <= spec_option_consumed(buffer@) <= buffer@.len(),
            r matches Err(e) ==> e == Error::InvalidOptionLen,
    {
        let buf_len = buffer.len();

        if buf_len < 1 {
            return Err(Error::InvalidOptionLen);
        }

        let option = Ipv4Option::new_unchecked(buffer);
        let option_kind = option.kind();

        if buf_len == 1 {
            proof {
                assert(buffer@.take(1) =~= buffer@);
            }
            return match option_kind {
                OptionKind::End | OptionKind::NoOperation | OptionKind::Unknown => Ok(option),
                _ => Err(Error::InvalidOptionLen),
            };
        }

        let consumed_len: u8 = match option_kind {
            OptionKind::End | OptionKind::NoOperation | OptionKind::Unknown => 1,
            OptionKind::Security => 11,
            OptionKind::LooseSourceRouting
            | OptionKind::StrictSourceRouting
            | OptionKind::RecordRoute
            | OptionKind::Timestamp => buffer[1],
            OptionKind::StreamId => 4,
        };

        if consumed_len < 1 {
            return Err(Error::InvalidOptionLen);
        }
        if buf_len < consumed_len as usize {
            return Err(Error::InvalidOptionLen);
        }

        Ok(Ipv4Option::new_unchecked(slice_subrange(buffer, 0, consumed_len as usize)))
    }

    pub fn option_type(&self) -> (r: OptionType)
        requires
            self@.len() >= 1,
        ensures
            r.0 == self@[0],
    {
        OptionType::from_u8(self.buffer[0])
    }

    /// The length byte, where the option has one.
    pub fn length(&self) -> (r: Option<u8>)
        ensures
            self@.len() > 1 ==> r == Some(self@[1]),
            self@.len() <= 1 ==> r is None,
    {
        if self.buffer.len() > 1 {
            Some(self.buffer[1])
        } else {
            None
        }
    }

    /// The option's bytes after the type and length bytes.
    pub fn data(&self) -> (r: Option<&'a [u8]>)
        ensures
            self@.len() >= 2 ==> (r matches Some(d) && d@ == self@.skip(2)),
            self@.len() < 2 ==> r is None,
    {
        if self.buffer.len() >= 2 {
            Some(slice_subrange(self.buffer, 2, self.buffer.len()))
        } else {
            None
        }
    }

    pub fn kind(&self) -> (r: OptionKind)
        requires
            self@.len() >= 1,
        ensures
            r == spec_option_kind(self@[0]),
    {
        let option_type = self.option_type();
        let option_class = option_type.class();
        let option_number = option_type.number();

        match (option_class, option_number) {
            (OptionClass::Control, 0) => OptionKind::End,
            (OptionClass::Control, 1) => OptionKind::NoOperation,
            (OptionClass::Control, 2) => OptionKind::Security,
            (OptionClass::Control, 3) => OptionKind::LooseSourceRouting,
            (OptionClass::Control, 7) => OptionKind::RecordRoute,
            (OptionClass::Control, 8) => OptionKind::StreamId,
            (OptionClass::Control, 9) => OptionKind::StrictSourceRouting,
            (OptionClass::DebuggingAndMeasurement, 4) => OptionKind::Timestamp,
            _ => OptionKind::Unknown,
        }
    }

    pub fn as_bytes(&self) -> (r: &'a [u8])
        ensures
            r@ == self@,
    {
        self.buffer
    }
}

/// A lazy, finite, non-restartable walk over an IPv4 header's option bytes.
pub struct OptionIterator<'a> {
    pub buffer: &'a [u8],
    pub cursor: usize,
}

impl<'a> OptionIterator<'a> {
    pub fn new(buffer: &'a [u8]) -> (r: OptionIterator<'a>)
        ensures
            r.buffer@ == buffer@,
            r.cursor == 0,
    {
        OptionIterator { buffer, cursor: 0 }
    }

    /// The next option, `None` at the end of the span or at an `End` option,
    /// an error where the bytes at the cursor are not a whole option.
    pub fn next(&mut self) -> (r: Option<Result<Ipv4Option<'a>, Error>>)
        ensures
            final(self).buffer == old(self).buffer,
            old(self).cursor >= old(self).buffer@.len() ==> r is None && final(self).cursor == old(
                self,
            ).cursor,
            old(self).cursor < old(self).buffer@.len() ==> ({
                let rest = old(self).buffer@.skip(old(self).cursor as int);
                &&& !spec_option_valid(rest) ==> r == Some(
                    Result::<Ipv4Option<'a>, Error>::Err(Error::InvalidOptionLen),
                ) && final(self).cursor == old(self).cursor
                &&& spec_option_valid(rest) ==> {
                    &&& final(self).cursor == old(self).cursor + spec_option_consumed(rest)
                    &&& spec_option_kind(rest[0]) == OptionKind::End ==> r is None
                    &&& spec_option_kind(rest[0]) != OptionKind::End ==> (r matches Some(res)
                        && res matches Ok(o) && o@ == rest.take(spec_option_consumed(rest)))
                }
            }),
    {
        if self.cursor >= self.buffer.len() {
            return None;
        }

        let buffer_to_iterate = slice_subrange(self.buffer, self.cursor, self.buffer.len());
        let result = Ipv4Option::new_checked(buffer_to_iterate);

        match result {
            Ok(option) => {
                self.cursor = self.cursor + option.as_bytes().len();
                if option.kind() == OptionKind::End {
                    None
                } else {
                    Some(Ok(option))
                }
            },
            Err(err) => Some(Err(err)),
        }
    }
}

} // verus!
