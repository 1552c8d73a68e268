//! Typed accessors over an ICMPv4 message held in a byte buffer (RFC 792):
//! the base header, and the Echo / Destination-Unreachable variants.

use vstd::prelude::*;
use vstd::pervasive::VecAdditionalExecFns;
use vstd::slice::slice_subrange;

use crate::icmpv4::error::Error;

verus! {

/// ICMP message types defined in RFC 792; unrecognised values round-trip
/// through `Unknown`.
#[derive(Debug, Clone, Copy, PartialEq, Eq, Structural)]
pub enum MessageType {
    EchoReply,
    DestinationUnreachable,
    SourceQuench,
    Redirect,
    Echo,
    TimeExceeded,
    ParameterProblem,
    Timestamp,
    TimestampReply,
    InformationRequest,
    InformationReply,
    Unknown(u8),
}

impl MessageType {
    pub open spec fn spec_from_u8(value: u8) -> MessageType {
        if value == 0 {
            MessageType::EchoReply
        } else if value == 3 {
            MessageType::DestinationUnreachable
        } else if value == 4 {
            MessageType::SourceQuench
        } else if value == 5 {
            MessageType::Redirect
        } else if value == 8 {
            MessageType::Echo
        } else if value == 11 {
            MessageType::TimeExceeded
        } else if value == 12 {
            MessageType::ParameterProblem
        } else if value == 13 {
            MessageType::Timestamp
        } else if value == 14 {
            MessageType::TimestampReply
        } else if value == 15 {
            MessageType::InformationRequest
        } else if value == 16 {
            MessageType::InformationReply
        } else {
            MessageType::Unknown(value)
        }
    }

    pub open spec fn spec_to_u8(self) -> u8 {
        match self {
            MessageType::EchoReply => 0,
            MessageType::DestinationUnreachable => 3,
            MessageType::SourceQuench => 4,
            MessageType::Redirect => 5,
            MessageType::Echo => 8,
            MessageType::TimeExceeded => 11,
            MessageType::ParameterProblem => 12,
            MessageType::Timestamp => 13,
            MessageType::TimestampReply => 14,
            MessageType::InformationRequest => 15,
            MessageType::InformationReply => 16,
            MessageType::Unknown(value) => value,
        }
    }

    pub fn from_u8(value: u8) -> (r: MessageType)
        ensures
            r == MessageType::spec_from_u8(value),
    {
        match value {
            0 => MessageType::EchoReply,
            3 => MessageType::DestinationUnreachable,
            4 => MessageType::SourceQuench,
            5 => MessageType::Redirect,
            8 => MessageType::Echo,
            11 => MessageType::TimeExceeded,
            12 => MessageType::ParameterProblem,
            13 => MessageType::Timestamp,
            14 => MessageType::TimestampReply,
            15 => MessageType::InformationRequest,
            16 => MessageType::InformationReply,
            _ => MessageType::Unknown(value),
        }
    }

    pub fn to_u8(self) -> (r: u8)
        ensures
            r == self.spec_to_u8(),
    {
        match self {
            MessageType::EchoReply => 0,
            MessageType::DestinationUnreachable => 3,
            MessageType::SourceQuench => 4,
            MessageType::Redirect => 5,
            MessageType::Echo => 8,
            MessageType::TimeExceeded => 11,
            MessageType::ParameterProblem => 12,
            MessageType::Timestamp => 13,
            MessageType::TimestampReply => 14,
            MessageType::InformationRequest => 15,
            MessageType::InformationReply => 16,
            MessageType::Unknown(value) => value,
        }
    }
}

/// Unrecognised message types are preserved verbatim on the wire.
pub proof fn lemma_message_type_round_trip(value: u8)
    ensures
        MessageType::spec_from_u8(value).spec_to_u8() == value,
{
}

pub open spec fn spec_msg_type(b: Seq<u8>) -> MessageType {
    MessageType::spec_from_u8(b[0])
}

pub open spec fn spec_code(b: Seq<u8>) -> u8 {
    b[1]
}

pub open spec fn spec_checksum(b: Seq<u8>) -> u16 {
    (b[2] * 256 + b[3]) as u16
}

/// The bytes after the 4-byte base header.
pub open spec fn spec_payload(b: Seq<u8>) -> Seq<u8> {
    b.skip(4)
}

/// An ICMPv4 message view over an owned byte buffer.
#[derive(Debug)]
pub struct Packet {
    buffer: Vec<u8>,
}

impl View for Packet {
    type V = Seq<u8>;

    closed spec fn view(&self) -> Seq<u8> {
        self.buffer@
    }
}

impl Packet {
    pub fn new_unchecked(buffer: Vec<u8>) -> (r: Packet)
        ensures
            r@ == buffer@,
    {
        Packet { buffer }
    }

    pub fn msg_type(&self) -> (r: MessageType)
        requires
            self@.len() >= 1,
        ensures
            r == spec_msg_type(self@),
    {
        MessageType::from_u8(self.buffer[0])
    }

    pub fn code(&self) -> (r: u8)
        requires
            self@.len() >= 2,
        ensures
            r == spec_code(self@),
    {
        self.buffer[1]
    }

    pub fn checksum(&self) -> (r: u16)
        requires
            self@.len() >= 4,
        ensures
            r == spec_checksum(self@),
    {
        (self.buffer[2] as u16) * 256 + (self.buffer[3] as u16)
    }

    pub fn payload(&self) -> (r: &[u8])
        requires
            self@.len() >= 4,
        ensures
            r@ == spec_payload(self@),
    {
        slice_subrange(self.buffer.as_slice(), 4, self.buffer.len())
    }

    pub fn as_bytes(&self) -> (r: &[u8])
        ensures
            r@ == self@,
    {
        self.buffer.as_slice()
    }

    pub fn into_vec(self) -> (r: Vec<u8>)
        ensures
            r@ == self@,
    {
        self.buffer
    }

    pub fn set_type(&mut self, msg_type: MessageType)
        requires
            old(self)@.len() >= 1,
        ensures
            final(self)@ == old(self)@.update(0, msg_type.spec_to_u8()),
    {
        self.buffer.set(0, msg_type.to_u8());
    }

    pub fn set_code(&mut self, code: u8)
        requires
            old(self)@.len() >= 2,
        ensures
            final(self)@ == old(self)@.update(1, code),
    {
        self.buffer.set(1, code);
    }

    pub fn set_checksum(&mut self, checksum: u16)
        requires
            old(self)@.len() >= 4,
        ensures
            final(self)@ == old(self)@.update(2, (checksum / 256) as u8).update(
                3,
                (checksum % 256) as u8,
            ),
            spec_checksum(final(self)@) == checksum,
    {
        self.buffer.set(2, (checksum / 256) as u8);
        self.buffer.set(3, (checksum % 256) as u8);
    }
}

/// Destination-Unreachable code values (RFC 792); unrecognised values
/// round-trip through `Unknown`.
#[derive(Debug, Clone, Copy, PartialEq, Eq, Structural)]
pub enum DestinationUnreachablePacketCode {
    NetUnreachable,
    HostUnreachable,
    ProtocolUnreachable,
    PortUnreachable,
    FragmentationNeededAndDfSet,
    SourceRouteFailed,
    Unknown(u8),
}

impl DestinationUnreachablePacketCode {
    pub open spec fn spec_from_u8(value: u8) -> DestinationUnreachablePacketCode {
        if value == 0 {
            DestinationUnreachablePacketCode::NetUnreachable
        } else if value == 1 {
            DestinationUnreachablePacketCode::HostUnreachable
        } else if value == 2 {
            DestinationUnreachablePacketCode::ProtocolUnreachable
        } else if value == 3 {
            DestinationUnreachablePacketCode::PortUnreachable
        } else if value == 4 {
            DestinationUnreachablePacketCode::FragmentationNeededAndDfSet
        } else if value == 5 {
            DestinationUnreachablePacketCode::SourceRouteFailed
        } else {
            DestinationUnreachablePacketCode::Unknown(value)
        }
    }

    pub fn from_u8(value: u8) -> (r: DestinationUnreachablePacketCode)
        ensures
            r == DestinationUnreachablePacketCode::spec_from_u8(value),
    {
        match value {
            0 => DestinationUnreachablePacketCode::NetUnreachable,
            1 => DestinationUnreachablePacketCode::HostUnreachable,
            2 => DestinationUnreachablePacketCode::ProtocolUnreachable,
            3 => DestinationUnreachablePacketCode::PortUnreachable,
            4 => DestinationUnreachablePacketCode::FragmentationNeededAndDfSet,
            5 => DestinationUnreachablePacketCode::SourceRouteFailed,
            _ => DestinationUnreachablePacketCode::Unknown(value),
        }
    }
}

/// A Destination-Unreachable message: the base view constrained to type 3,
/// with its code sub-enum and payload at offset 8.
#[derive(Debug)]
pub struct DestinationUnreachablePacket {
    packet: Packet,
}

impl View for DestinationUnreachablePacket {
    type V = Seq<u8>;

    closed spec fn view(&self) -> Seq<u8> {
        self.packet@
    }
}

impl DestinationUnreachablePacket {
    pub fn new_unchecked(buffer: Vec<u8>) -> (r: Self)
        ensures
            r@ == buffer@,
    {
        Self { packet: Packet::new_unchecked(buffer) }
    }

    pub fn new_checked(buffer: Vec<u8>) -> (r: Result<Self, Error>)
        ensures
            r is Ok <==> buffer@.len() >= 1 && spec_msg_type(buffer@)
                == MessageType::DestinationUnreachable,
            r matches Ok(p) ==> p@ == buffer@,
            r matches Err(e) ==> e == Error::InvalidMessageType,
    {
        if buffer.len() < 1 {
            return Err(Error::InvalidMessageType);
        }
        let packet = Self::new_unchecked(buffer);
        if !matches!(packet.packet.msg_type(), MessageType::DestinationUnreachable) {
            return Err(Error::InvalidMessageType);
        }
        Ok(packet)
    }

    pub fn msg_type(&self) -> (r: MessageType)
        requires
            self@.len() >= 1,
        ensures
            r == spec_msg_type(self@),
    {
        self.packet.msg_type()
    }

    pub fn checksum(&self) -> (r: u16)
        requires
            self@.len() >= 4,
        ensures
            r == spec_checksum(self@),
    {
        self.packet.checksum()
    }

    pub fn code(&self) -> (r: DestinationUnreachablePacketCode)
        requires
            self@.len() >= 2,
        ensures
            r == DestinationUnreachablePacketCode::spec_from_u8(spec_code(self@)),
    {
        DestinationUnreachablePacketCode::from_u8(self.packet.code())
    }

    /// The failed datagram's header and leading payload, from offset 8 on.
    pub fn payload(&self) -> (r: &[u8])
        requires
            self@.len() >= 8,
        ensures
            r@ == self@.skip(8),
    {
        slice_subrange(self.packet.buffer.as_slice(), 8, self.packet.buffer.len())
    }
}

/// An Echo or Echo-Reply message: the base view constrained to types 0 and
/// 8, with identifier and sequence number in the rest-of-header and payload
/// at offset 8.
#[derive(Debug)]
pub struct EchoAndEchoReplyPacket {
    packet: Packet,
}

impl View for EchoAndEchoReplyPacket {
    type V = Seq<u8>;

    closed spec fn view(&self) -> Seq<u8> {
        self.packet@
    }
}

pub open spec fn spec_identifier(b: Seq<u8>) -> u16 {
    (b[4] * 256 + b[5]) as u16
}

pub open spec fn spec_sequence_number(b: Seq<u8>) -> u16 {
    (b[6] * 256 + b[7]) as u16
}

impl EchoAndEchoReplyPacket {
    pub fn new_unchecked(buffer: Vec<u8>) -> (r: Self)
        ensures
            r@ == buffer@,
    {
        Self { packet: Packet::new_unchecked(buffer) }
    }

    pub fn new_checked(buffer: Vec<u8>) -> (r: Result<Self, Error>)
        ensures
            r is Ok <==> buffer@.len() >= 1 && (spec_msg_type(buffer@) == MessageType::Echo
                || spec_msg_type(buffer@) == MessageType::EchoReply),
            r matches Ok(p) ==> p@ == buffer@,
            r matches Err(e) ==> e == Error::InvalidMessageType,
    {
        if buffer.len() < 1 {
            return Err(Error::InvalidMessageType);
        }
        let packet = Self::new_unchecked(buffer);
        let t = packet.packet.msg_type();
        if !matches!(t, MessageType::Echo) && !matches!(t, MessageType::EchoReply) {
            return Err(Error::InvalidMessageType);
        }
        Ok(packet)
    }

    pub fn msg_type(&self) -> (r: MessageType)
        requires
            self@.len() >= 1,
        ensures
            r == spec_msg_type(self@),
    {
        self.packet.msg_type()
    }

    pub fn checksum(&self) -> (r: u16)
        requires
            self@.len() >= 4,
        ensures
            r == spec_checksum(self@),
    {
        self.packet.checksum()
    }

    pub fn is_reply(&self) -> (r: bool)
        requires
            self@.len() >= 1,
        ensures
            r == (spec_msg_type(self@) == MessageType::EchoReply),
    {
        matches!(self.packet.msg_type(), MessageType::EchoReply)
    }

    pub fn is_request(&self) -> (r: bool)
        requires
            self@.len() >= 1,
        ensures
            r == (spec_msg_type(self@) == MessageType::Echo),
    {
        matches!(self.packet.msg_type(), MessageType::Echo)
    }

    pub fn identifier(&self) -> (r: u16)
        requires
            self@.len() >= 6,
        ensures
            r == spec_identifier(self@),
    {
        (self.packet.buffer[4] as u16) * 256 + (self.packet.buffer[5] as u16)
    }

    pub fn sequence_number(&self) -> (r: u16)
        requires
            self@.len() >= 8,
        ensures
            r == spec_sequence_number(self@),
    {
        (self.packet.buffer[6] as u16) * 256 + (self.packet.buffer[7] as u16)
    }

    pub fn payload(&self) -> (r: &[u8])
        requires
            self@.len() >= 8,
        ensures
            r@ == self@.skip(8),
    {
        slice_subrange(self.packet.buffer.as_slice(), 8, self.packet.buffer.len())
    }

    pub fn as_bytes(&self) -> (r: &[u8])
        ensures
            r@ == self@,
    {
        self.packet.as_bytes()
    }

    pub fn into_vec(self) -> (r: Vec<u8>)
        ensures
            r@ == self@,
    {
        self.packet.into_vec()
    }

    pub fn set_identifier(&mut self, identifier: u16)
        requires
            old(self)@.len() >= 6,
        ensures
            final(self)@ == old(self)@.update(4, (identifier / 256) as u8).update(
                5,
                (identifier % 256) as u8,
            ),
            spec_identifier(final(self)@) == identifier,
    {
        self.packet.buffer.set(4, (identifier / 256) as u8);
        self.packet.buffer.set(5, (identifier % 256) as u8);
    }

    pub fn set_sequence_number(&mut self, sequence_number: u16)
        requires
            old(self)@.len() >= 8,
        ensures
            final(self)@ == old(self)@.update(6, (sequence_number / 256) as u8).update(
                7,
                (sequence_number % 256) as u8,
            ),
            spec_sequence_number(final(self)@) == sequence_number,
    {
        self.packet.buffer.set(6, (sequence_number / 256) as u8);
        self.packet.buffer.set(7, (sequence_number % 256) as u8);
    }
}

} // verus!
