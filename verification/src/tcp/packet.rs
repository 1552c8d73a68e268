//! Typed accessors over a TCP segment held in a byte buffer (RFC 793).

use vstd::prelude::*;
use vstd::pervasive::VecAdditionalExecFns;
use vstd::slice::slice_subrange;

use crate::tcp::error::Error;

verus! {

pub open spec fn spec_src_port(b: Seq<u8>) -> u16 {
    (b[0] * 256 + b[1]) as u16
}

pub open spec fn spec_dest_port(b: Seq<u8>) -> u16 {
    (b[2] * 256 + b[3]) as u16
}

pub open spec fn spec_seq_number(b: Seq<u8>) -> u32 {
    (b[4] * 0x1000000 + b[5] * 0x10000 + b[6] * 0x100 + b[7]) as u32
}

pub open spec fn spec_ack_number(b: Seq<u8>) -> u32 {
    (b[8] * 0x1000000 + b[9] * 0x10000 + b[10] * 0x100 + b[11]) as u32
}

/// Header length in 32-bit words.
pub open spec fn spec_data_offset(b: Seq<u8>) -> u8 {
    b[12] >> 4
}

pub open spec fn spec_reserved(b: Seq<u8>) -> u8 {
    ((b[12] & 0x0f) << 2) | (b[13] >> 6)
}

pub open spec fn spec_urg(b: Seq<u8>) -> bool {
    (b[13] & 0x20) >> 5 == 1
}

pub open spec fn spec_ack(b: Seq<u8>) -> bool {
    (b[13] & 0x10) >> 4 == 1
}

pub open spec fn spec_psh(b: Seq<u8>) -> bool {
    (b[13] & 0x08) >> 3 == 1
}

pub open spec fn spec_rst(b: Seq<u8>) -> bool {
    (b[13] & 0x04) >> 2 == 1
}

pub open spec fn spec_syn(b: Seq<u8>) -> bool {
    (b[13] & 0x02) >> 1 == 1
}

pub open spec fn spec_fin(b: Seq<u8>) -> bool {
    b[13] & 0x01 == 1
}

pub open spec fn spec_window(b: Seq<u8>) -> u16 {
    (b[14] * 256 + b[15]) as u16
}

pub open spec fn spec_checksum(b: Seq<u8>) -> u16 {
    (b[16] * 256 + b[17]) as u16
}

pub open spec fn spec_urgent_pointer(b: Seq<u8>) -> u16 {
    (b[18] * 256 + b[19]) as u16
}

/// The bytes after the header: everything from `data offset * 4` on.
pub open spec fn spec_payload(b: Seq<u8>) -> Seq<u8> {
    b.skip(spec_data_offset(b) * 4)
}

/// What checked construction guarantees of a buffer.
pub open spec fn spec_wf(b: Seq<u8>) -> bool {
    &&& b.len() >= 13
    &&& spec_data_offset(b) * 4 <= b.len()
}

/// A TCP segment view over an owned byte buffer.
#[derive(Debug)]
pub struct Packet {
    buffer: Vec<u8>,
}

impl View for Packet {
    type V = Seq<u8>;

    closed spec fn view(&self) -> Seq<u8> {
        self.buffer@
    }
}

impl Packet {
    /// Wraps a buffer without validation.
    pub fn new_unchecked(buffer: Vec<u8>) -> (r: Packet)
        ensures
            r@ == buffer@,
    {
        Packet { buffer }
    }

    /// Wraps a buffer, validating that the data offset stays within it.
    pub fn new_checked(buffer: Vec<u8>) -> (r: Result<Packet, Error>)
        ensures
            r is Ok <==> spec_wf(buffer@),
            r matches Ok(p) ==> p@ == buffer@,
            r matches Err(e) ==> e == Error::InvalidDataOffset,
    {
        if buffer.len() < 13 {
            return Err(Error::InvalidDataOffset);
        }
        let packet = Packet::new_unchecked(buffer);
        if let Err(e) = packet.check_len() {
            return Err(e);
        }
        Ok(packet)
    }

    pub fn check_len(&self) -> (r: Result<(), Error>)
        requires
            self@.len() >= 13,
        ensures
            r is Ok <==> spec_data_offset(self@) * 4 <= self@.len(),
            r is Err ==> r == Err::<(), Error>(Error::InvalidDataOffset),
    {
        let header_bytes_len: usize = (self.data_offset() as usize) * 4;

        if header_bytes_len > self.buffer.len() {
            return Err(Error::InvalidDataOffset);
        }

        Ok(())
    }

    pub fn src_port(&self) -> (r: u16)
        requires
            self@.len() >= 2,
        ensures
            r == spec_src_port(self@),
    {
        (self.buffer[0] as u16) * 256 + (self.buffer[1] as u16)
    }

    pub fn dest_port(&self) -> (r: u16)
        requires
            self@.len() >= 4,
        ensures
            r == spec_dest_port(self@),
    {
        (self.buffer[2] as u16) * 256 + (self.buffer[3] as u16)
    }

    pub fn seq_number(&self) -> (r: u32)
        requires
            self@.len() >= 8,
        ensures
            r == spec_seq_number(self@),
    {
        (self.buffer[4] as u32) * 0x1000000 + (self.buffer[5] as u32) * 0x10000 + (
        self.buffer[6] as u32) * 0x100 + (self.buffer[7] as u32)
    }

    pub fn ack_number(&self) -> (r: u32)
        requires
            self@.len() >= 12,
        ensures
            r == spec_ack_number(self@),
    {
        (self.buffer[8] as u32) * 0x1000000 + (self.buffer[9] as u32) * 0x10000 + (
        self.buffer[10] as u32) * 0x100 + (self.buffer[11] as u32)
    }

    pub fn data_offset(&self) -> (r: u8)
        requires
            self@.len() >= 13,
        ensures
            r == spec_data_offset(self@),
    {
        self.buffer[12] >> 4
    }

    pub fn reserved(&self) -> (r: u8)
        requires
            self@.len() >= 14,
        ensures
            r == spec_reserved(self@),
    {
        ((self.buffer[12] & 0x0f) << 2) | (self.buffer[13] >> 6)
    }

    pub fn urg(&self) -> (r: bool)
        requires
            self@.len() >= 14,
        ensures
            r == spec_urg(self@),
    {
        (self.buffer[13] & 0x20) >> 5 == 1
    }

    pub fn ack(&self) -> (r: bool)
        requires
            self@.len() >= 14,
        ensures
            r == spec_ack(self@),
    {
        (self.buffer[13] & 0x10) >> 4 == 1
    }

    pub fn psh(&self) -> (r: bool)
        requires
            self@.len() >= 14,
        ensures
            r == spec_psh(self@),
    {
        (self.buffer[13] & 0x08) >> 3 == 1
    }

    pub fn rst(&self) -> (r: bool)
        requires
            self@.len() >= 14,
        ensures
            r == spec_rst(self@),
    {
        (self.buffer[13] & 0x04) >> 2 == 1
    }

    pub fn syn(&self) -> (r: bool)
        requires
            self@.len() >= 14,
        ensures
            r == spec_syn(self@),
    {
        (self.buffer[13] & 0x02) >> 1 == 1
    }

    pub fn fin(&self) -> (r: bool)
        requires
            self@.len() >= 14,
        ensures
            r == spec_fin(self@),
    {
        self.buffer[13] & 0x01 == 1
    }

    pub fn window(&self) -> (r: u16)
        requires
            self@.len() >= 16,
        ensures
            r == spec_window(self@),
    {
        (self.buffer[14] as u16) * 256 + (self.buffer[15] as u16)
    }

    pub fn checksum(&self) -> (r: u16)
        requires
            self@.len() >= 18,
        ensures
            r == spec_checksum(self@),
    {
        (self.buffer[16] as u16) * 256 + (self.buffer[17] as u16)
    }

    pub fn urgent_pointer(&self) -> (r: u16)
        requires
            self@.len() >= 20,
        ensures
            r == spec_urgent_pointer(self@),
    {
        (self.buffer[18] as u16) * 256 + (self.buffer[19] as u16)
    }

    pub fn payload(&self) -> (r: &[u8])
        requires
            self@.len() >= 13,
            spec_data_offset(self@) * 4 <= self@.len(),
        ensures
            r@ == spec_payload(self@),
    {
        let header_bytes_len: usize = (self.data_offset() as usize) * 4;
        slice_subrange(self.buffer.as_slice(), header_bytes_len, self.buffer.len())
    }

    pub fn as_bytes(&self) -> (r: &[u8])
        ensures
            r@ == self@,
    {
        self.buffer.as_slice()
    }

    pub fn into_vec(self) -> (r: Vec<u8>)
        ensures
            r@ == self@,
    {
        self.buffer
    }

    pub fn set_src_port(&mut self, src_port: u16)
        requires
            old(self)@.len() >= 2,
        ensures
            final(self)@ == old(self)@.update(0, (src_port / 256) as u8).update(
                1,
                (src_port % 256) as u8,
            ),
            spec_src_port(final(self)@) == src_port,
    {
        self.buffer.set(0, (src_port / 256) as u8);
        self.buffer.set(1, (src_port % 256) as u8);
    }

    pub fn set_dest_port(&mut self, dest_port: u16)
        requires
            old(self)@.len() >= 4,
        ensures
            final(self)@ == old(self)@.update(2, (dest_port / 256) as u8).update(
                3,
                (dest_port % 256) as u8,
            ),
            spec_dest_port(final(self)@) == dest_port,
    {
        self.buffer.set(2, (dest_port / 256) as u8);
        self.buffer.set(3, (dest_port % 256) as u8);
    }

    pub fn set_seq_number(&mut self, seq_number: u32)
        requires
            old(self)@.len() >= 8,
        ensures
            final(self)@ == old(self)@.update(4, (seq_number / 0x1000000) as u8).update(
                5,
                ((seq_number / 0x10000) % 256) as u8,
            ).update(6, ((seq_number / 0x100) % 256) as u8).update(7, (seq_number % 256) as u8),
            spec_seq_number(final(self)@) == seq_number,
    {
        self.buffer.set(4, (seq_number / 0x1000000) as u8);
        self.buffer.set(5, ((seq_number / 0x10000) % 256) as u8);
        self.buffer.set(6, ((seq_number / 0x100) % 256) as u8);
        self.buffer.set(7, (seq_number % 256) as u8);
        proof {
            lemma_be32_recompose(seq_number);
        }
    }

    pub fn set_ack_number(&mut self, ack_number: u32)
        requires
            old(self)@.len() >= 12,
        ensures
            final(self)@ == old(self)@.update(8, (ack_number / 0x1000000) as u8).update(
                9,
                ((ack_number / 0x10000) % 256) as u8,
            ).update(10, ((ack_number / 0x100) % 256) as u8).update(
                11,
                (ack_number % 256) as u8,
            ),
            spec_ack_number(final(self)@) == ack_number,
    {
        self.buffer.set(8, (ack_number / 0x1000000) as u8);
        self.buffer.set(9, ((ack_number / 0x10000) % 256) as u8);
        self.buffer.set(10, ((ack_number / 0x100) % 256) as u8);
        self.buffer.set(11, (ack_number % 256) as u8);
        proof {
            lemma_be32_recompose(ack_number);
        }
    }

    pub fn set_data_offset(&mut self, data_offset: u8)
        requires
            old(self)@.len() >= 13,
        ensures
            final(self)@ == old(self)@.update(
                12,
                (old(self)@[12] & 0x0f) | (data_offset << 4),
            ),
    {
        let b12 = self.buffer[12];
        self.buffer.set(12, (b12 & 0x0f) | (data_offset << 4));
    }

    pub fn set_reserved(&mut self, reserved: u8)
        requires
            old(self)@.len() >= 14,
        ensures
            final(self)@ == old(self)@.update(12, (old(self)@[12] & 0xf0) | (reserved >> 2))
                .update(13, (old(self)@[13] & 0x3f) | (reserved << 6)),
    {
        let b12 = self.buffer[12];
        self.buffer.set(12, (b12 & 0xf0) | (reserved >> 2));
        let b13 = self.buffer[13];
        self.buffer.set(13, (b13 & 0x3f) | (reserved << 6));
    }

    pub fn set_urg(&mut self, urg: bool)
        requires
            old(self)@.len() >= 14,
        ensures
            final(self)@ == old(self)@.update(
                13,
                (old(self)@[13] & 0xdf) | ((if urg { 1u8 } else { 0u8 }) << 5),
            ),
            spec_urg(final(self)@) == urg,
    {
        let bit: u8 = if urg { 1 } else { 0 };
        let b13 = self.buffer[13];
        self.buffer.set(13, (b13 & 0xdf) | (bit << 5));
        proof {
            let v = old(self)@[13];
            assert((((v & 0xdf) | (1u8 << 5)) & 0x20) >> 5 == 1) by (bit_vector);
            assert((((v & 0xdf) | (0u8 << 5)) & 0x20) >> 5 == 0) by (bit_vector);
        }
    }

    pub fn set_ack(&mut self, ack: bool)
        requires
            old(self)@.len() >= 14,
        ensures
            final(self)@ == old(self)@.update(
                13,
                (old(self)@[13] & 0xef) | ((if ack { 1u8 } else { 0u8 }) << 4),
            ),
            spec_ack(final(self)@) == ack,
    {
        let bit: u8 = if ack { 1 } else { 0 };
        let b13 = self.buffer[13];
        self.buffer.set(13, (b13 & 0xef) | (bit << 4));
        proof {
            let v = old(self)@[13];
            assert((((v & 0xef) | (1u8 << 4)) & 0x10) >> 4 == 1) by (bit_vector);
            assert((((v & 0xef) | (0u8 << 4)) & 0x10) >> 4 == 0) by (bit_vector);
        }
    }

    pub fn set_psh(&mut self, psh: bool)
        requires
            old(self)@.len() >= 14,
        ensures
            final(self)@ == old(self)@.update(
                13,
                (old(self)@[13] & 0xf7) | ((if psh { 1u8 } else { 0u8 }) << 3),
            ),
            spec_psh(final(self)@) == psh,
    {
        let bit: u8 = if psh { 1 } else { 0 };
        let b13 = self.buffer[13];
        self.buffer.set(13, (b13 & 0xf7) | (bit << 3));
        proof {
            let v = old(self)@[13];
            assert((((v & 0xf7) | (1u8 << 3)) & 0x08) >> 3 == 1) by (bit_vector);
            assert((((v & 0xf7) | (0u8 << 3)) & 0x08) >> 3 == 0) by (bit_vector);
        }
    }

    pub fn set_rst(&mut self, rst: bool)
        requires
            old(self)@.len() >= 14,
        ensures
            final(self)@ == old(self)@.update(
                13,
                (old(self)@[13] & 0xfb) | ((if rst { 1u8 } else { 0u8 }) << 2),
            ),
            spec_rst(final(self)@) == rst,
    {
        let bit: u8 = if rst { 1 } else { 0 };
        let b13 = self.buffer[13];
        self.buffer.set(13, (b13 & 0xfb) | (bit << 2));
        proof {
            let v = old(self)@[13];
            assert((((v & 0xfb) | (1u8 << 2)) & 0x04) >> 2 == 1) by (bit_vector);
            assert((((v & 0xfb) | (0u8 << 2)) & 0x04) >> 2 == 0) by (bit_vector);
        }
    }

    pub fn set_syn(&mut self, syn: bool)
        requires
            old(self)@.len() >= 14,
        ensures
            final(self)@ == old(self)@.update(
                13,
                (old(self)@[13] & 0xfd) | ((if syn { 1u8 } else { 0u8 }) << 1),
            ),
            spec_syn(final(self)@) == syn,
    {
        let bit: u8 = if syn { 1 } else { 0 };
        let b13 = self.buffer[13];
        self.buffer.set(13, (b13 & 0xfd) | (bit << 1));
        proof {
            let v = old(self)@[13];
            assert((((v & 0xfd) | (1u8 << 1)) & 0x02) >> 1 == 1) by (bit_vector);
            assert((((v & 0xfd) | (0u8 << 1)) & 0x02) >> 1 == 0) by (bit_vector);
        }
    }

    pub fn set_fin(&mut self, fin: bool)
        requires
            old(self)@.len() >= 14,
        ensures
            final(self)@ == old(self)@.update(
                13,
                (old(self)@[13] & 0xfe) | (if fin { 1u8 } else { 0u8 }),
            ),
            spec_fin(final(self)@) == fin,
    {
        let bit: u8 = if fin { 1 } else { 0 };
        let b13 = self.buffer[13];
        self.buffer.set(13, (b13 & 0xfe) | bit);
        proof {
            let v = old(self)@[13];
            assert(((v & 0xfe) | 1u8) & 0x01 == 1) by (bit_vector);
            assert(((v & 0xfe) | 0u8) & 0x01 == 0) by (bit_vector);
        }
    }

    pub fn set_window(&mut self, window: u16)
        requires
            old(self)@.len() >= 16,
        ensures
            final(self)@ == old(self)@.update(14, (window / 256) as u8).update(
                15,
                (window % 256) as u8,
            ),
            spec_window(final(self)@) == window,
    {
        self.buffer.set(14, (window / 256) as u8);
        self.buffer.set(15, (window % 256) as u8);
    }

    pub fn set_checksum(&mut self, checksum: u16)
        requires
            old(self)@.len() >= 18,
        ensures
            final(self)@ == old(self)@.update(16, (checksum / 256) as u8).update(
                17,
                (checksum % 256) as u8,
            ),
            spec_checksum(final(self)@) == checksum,
    {
        self.buffer.set(16, (checksum / 256) as u8);
        self.buffer.set(17, (checksum % 256) as u8);
    }

    pub fn set_urgent_pointer(&mut self, urgent_pointer: u16)
        requires
            old(self)@.len() >= 20,
        ensures
            final(self)@ == old(self)@.update(18, (urgent_pointer / 256) as u8).update(
                19,
                (urgent_pointer % 256) as u8,
            ),
            spec_urgent_pointer(final(self)@) == urgent_pointer,
    {
        self.buffer.set(18, (urgent_pointer / 256) as u8);
        self.buffer.set(19, (urgent_pointer % 256) as u8);
    }

    /// Overwrites the start of the payload area with `data`.
    pub fn set_payload(&mut self, data: &[u8])
        requires
            old(self)@.len() >= 13,
            spec_data_offset(old(self)@) * 4 + data@.len() <= old(self)@.len(),
            spec_data_offset(old(self)@) >= 4,
        ensures
            final(self)@.len() == old(self)@.len(),
            spec_data_offset(final(self)@) == spec_data_offset(old(self)@),
            forall|i: int|
                0 <= i < final(self)@.len() && !(spec_data_offset(old(self)@) * 4 <= i
                    < spec_data_offset(old(self)@) * 4 + data@.len()) ==> final(self)@[i]
                    == old(self)@[i],
            forall|i: int|
                0 <= i < data@.len() ==> final(self)@[spec_data_offset(old(self)@) * 4 + i]
                    == data@[i],
    {
        let start: usize = (self.data_offset() as usize) * 4;
        let n: usize = data.len();
        let buflen: usize = self.buffer.len();
        let mut i: usize = 0;
        while i < n
            invariant
                start == spec_data_offset(old(self)@) * 4,
                start >= 16,
                n == data@.len(),
                old(self)@.len() == buflen,
                start + n <= buflen,
                i <= n,
                self@.len() == old(self)@.len(),
                forall|j: int|
                    0 <= j < self@.len() && !(start <= j < start + i) ==> self@[j] == old(
                        self,
                    )@[j],
                forall|j: int| 0 <= j < i ==> self@[start + j] == data@[j],
            decreases n - i,
        {
            self.buffer.set(start + i, data[i]);
            i = i + 1;
        }
    }
}

/// Four big-endian bytes of a 32-bit value recompose to it.
proof fn lemma_be32_recompose(v: u32)
    ensures
        (v / 0x1000000) * 0x1000000 + ((v / 0x10000) % 256) * 0x10000 + ((v / 0x100) % 256)
            * 0x100 + v % 256 == v,
{
    assert((v / 0x1000000) * 0x1000000 + ((v / 0x10000) % 256) * 0x10000 + ((v / 0x100) % 256)
        * 0x100 + v % 256 == v) by (nonlinear_arith);
}

} // verus!
