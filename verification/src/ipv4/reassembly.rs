//! RFC 815-style hole-descriptor reassembly, keyed per datagram identity.

use vstd::prelude::*;
use vstd::pervasive::VecAdditionalExecFns;

use crate::ipv4::builder::{spec_build_cfg, HeaderConfig, PacketBuilder};
use crate::ipv4::packet::{
    spec_dest_addr, spec_flags, spec_header_len, spec_identification, spec_more_fragments,
    spec_offset, spec_payload, spec_protocol, spec_src_addr, spec_tos, spec_total_len, spec_ttl,
    spec_wf, Packet, MIN_HEADER_LEN,
};

verus! {

/// Default Timer Lower Bound: the least reassembly timeout, in seconds.
pub const DEFAULT_TLB: u8 = 15;

/// Default Hole Descriptor Upper Bound.
pub const DEFAULT_HDUB: u16 = 0xffff;

/// An area of the datagram's data not yet received: inclusive octet indices.
#[derive(Debug, Clone, Copy, PartialEq, Eq, Structural)]
pub struct HoleDescriptor {
    pub first: u16,
    pub last: u16,
}

impl HoleDescriptor {
    pub fn new(first: u16, last: u16) -> (r: Self)
        ensures
            r.first == first,
            r.last == last,
    {
        Self { first, last }
    }
}

impl Default for HoleDescriptor {
    /// The initial hole: the whole data space.
    fn default() -> (r: Self)
        ensures
            r.first == 0,
            r.last == DEFAULT_HDUB,
    {
        Self { first: 0, last: DEFAULT_HDUB }
    }
}

/// The reassembly timeout of one datagram under reassembly, in seconds.
#[derive(Debug, Clone, Copy, PartialEq, Eq, Structural)]
pub struct ReassemblyTimer {
    pub timeout: u8,
}

impl Default for ReassemblyTimer {
    fn default() -> (r: Self)
        ensures
            r.timeout == DEFAULT_TLB,
    {
        Self { timeout: DEFAULT_TLB }
    }
}

/// The index of the first data octet a fragment carries.
pub open spec fn spec_first(b: Seq<u8>) -> int {
    spec_offset(b) * 8
}

/// The index of the last data octet a fragment carries.
pub open spec fn spec_last(b: Seq<u8>) -> int {
    spec_first(b) + spec_payload(b).len() - 1
}

/// What the reassembler requires of a fragment: a validated datagram with at
/// least one payload byte whose data range stays within the 16-bit data
/// space.
pub open spec fn spec_frag_ok(b: Seq<u8>) -> bool {
    &&& spec_wf(b)
    &&& spec_header_len(b) * 4 <= b.len()
    &&& spec_payload(b).len() >= 1
    &&& spec_first(b) + spec_payload(b).len() <= 0x10000
}

/// The 128-bit reassembly key: identification, protocol, source and
/// destination address, packed.
pub open spec fn spec_addr_value(a: Seq<u8>) -> u128 {
    (a[0] * 0x1000000 + a[1] * 0x10000 + a[2] * 0x100 + a[3]) as u128
}

pub open spec fn spec_datagram_id(b: Seq<u8>) -> u128 {
    ((spec_identification(b) as int) * 0x1000000000000000000
        + (spec_protocol(b).spec_to_u8() as int) * 0x10000000000000000 + (spec_addr_value(
        spec_src_addr(b),
    ) as int) * 0x100000000 + spec_addr_value(spec_dest_addr(b)) as int) as u128
}

/// The packing splits into mixed-radix digits, so two keys agree only when
/// every field does.
proof fn lemma_packed_digits(id: int, p: int, s: int, d: int)
    requires
        0 <= id < 0x10000,
        0 <= p < 0x100,
        0 <= s < 0x100000000,
        0 <= d < 0x100000000,
    ensures
        ({
            let x = id * 0x1000000000000000000 + p * 0x10000000000000000 + s * 0x100000000 + d;
            &&& d == x % 0x100000000
            &&& s == (x / 0x100000000) % 0x100000000
            &&& p == (x / 0x10000000000000000) % 0x100
            &&& id == x / 0x1000000000000000000
        }),
{
    let x = id * 0x1000000000000000000 + p * 0x10000000000000000 + s * 0x100000000 + d;
    let q1 = id * 0x10000000000 + p * 0x100000000 + s;
    assert(x == q1 * 0x100000000 + d) by (nonlinear_arith)
        requires
            x == id * 0x1000000000000000000 + p * 0x10000000000000000 + s * 0x100000000 + d
                && q1 == id * 0x10000000000 + p * 0x100000000 + s;
    vstd::arithmetic::div_mod::lemma_fundamental_div_mod_converse(x, 0x100000000, q1, d);

    let q2 = id * 0x100 + p;
    assert(q1 == q2 * 0x100000000 + s) by (nonlinear_arith)
        requires q1 == id * 0x10000000000 + p * 0x100000000 + s && q2 == id * 0x100 + p;
    vstd::arithmetic::div_mod::lemma_fundamental_div_mod_converse(q1, 0x100000000, q2, s);

    vstd::arithmetic::div_mod::lemma_fundamental_div_mod_converse(q2, 0x100, id, p);
    assert(x / 0x10000000000000000 == q2) by {
        assert(x == q2 * 0x10000000000000000 + (s * 0x100000000 + d)) by (nonlinear_arith)
            requires
                x == id * 0x1000000000000000000 + p * 0x10000000000000000 + s * 0x100000000 + d
                    && q2 == id * 0x100 + p;
        vstd::arithmetic::div_mod::lemma_fundamental_div_mod_converse(
            x,
            0x10000000000000000,
            q2,
            s * 0x100000000 + d,
        );
    };
    assert(x / 0x1000000000000000000 == id) by {
        assert(x == id * 0x1000000000000000000 + (p * 0x10000000000000000 + s * 0x100000000
            + d));
        vstd::arithmetic::div_mod::lemma_fundamental_div_mod_converse(
            x,
            0x1000000000000000000,
            id,
            p * 0x10000000000000000 + s * 0x100000000 + d,
        );
    };
}

/// An address value splits back into its four bytes.
proof fn lemma_addr_value_digits(a: Seq<u8>)
    requires
        a.len() == 4,
    ensures
        ({
            let v = spec_addr_value(a) as int;
            &&& a[0] == v / 0x1000000
            &&& a[1] == (v / 0x10000) % 0x100
            &&& a[2] == (v / 0x100) % 0x100
            &&& a[3] == v % 0x100
        }),
{
    let v = spec_addr_value(a) as int;
    let q1 = a[0] * 0x10000 + a[1] * 0x100 + a[2];
    assert(v == q1 * 0x100 + a[3]) by (nonlinear_arith)
        requires v == a[0] * 0x1000000 + a[1] * 0x10000 + a[2] * 0x100 + a[3] && q1 == a[0]
            * 0x10000 + a[1] * 0x100 + a[2];
    vstd::arithmetic::div_mod::lemma_fundamental_div_mod_converse(v, 0x100, q1, a[3] as int);
    let q2 = a[0] * 0x100 + a[1];
    assert(q1 == q2 * 0x100 + a[2]) by (nonlinear_arith)
        requires q1 == a[0] * 0x10000 + a[1] * 0x100 + a[2] && q2 == a[0] * 0x100 + a[1];
    vstd::arithmetic::div_mod::lemma_fundamental_div_mod_converse(q1, 0x100, q2, a[2] as int);
    vstd::arithmetic::div_mod::lemma_fundamental_div_mod_converse(
        q2,
        0x100,
        a[0] as int,
        a[1] as int,
    );
    assert(v / 0x10000 == q2) by {
        assert(v == q2 * 0x10000 + (a[2] * 0x100 + a[3])) by (nonlinear_arith)
            requires v == a[0] * 0x1000000 + a[1] * 0x10000 + a[2] * 0x100 + a[3] && q2 == a[0]
                * 0x100 + a[1];
        vstd::arithmetic::div_mod::lemma_fundamental_div_mod_converse(
            v,
            0x10000,
            q2,
            a[2] * 0x100 + a[3],
        );
    };
    assert(v / 0x1000000 == a[0]) by {
        vstd::arithmetic::div_mod::lemma_fundamental_div_mod_converse(
            v,
            0x1000000,
            a[0] as int,
            a[1] * 0x10000 + a[2] * 0x100 + a[3],
        );
    };
}

/// The reassembly key is injective: two datagrams share a key only when
/// identification, protocol, source and destination all agree.
pub proof fn lemma_datagram_id_injective(a: Seq<u8>, b: Seq<u8>)
    requires
        a.len() >= 20,
        b.len() >= 20,
        spec_datagram_id(a) == spec_datagram_id(b),
    ensures
        spec_identification(a) == spec_identification(b),
        spec_protocol(a) == spec_protocol(b),
        spec_src_addr(a) == spec_src_addr(b),
        spec_dest_addr(a) == spec_dest_addr(b),
{
    lemma_packed_digits(
        spec_identification(a) as int,
        spec_protocol(a).spec_to_u8() as int,
        spec_addr_value(spec_src_addr(a)) as int,
        spec_addr_value(spec_dest_addr(a)) as int,
    );
    lemma_packed_digits(
        spec_identification(b) as int,
        spec_protocol(b).spec_to_u8() as int,
        spec_addr_value(spec_src_addr(b)) as int,
        spec_addr_value(spec_dest_addr(b)) as int,
    );
    crate::ipv4::packet::lemma_protocol_round_trip(a[9]);
    crate::ipv4::packet::lemma_protocol_round_trip(b[9]);
    lemma_addr_value_digits(spec_src_addr(a));
    lemma_addr_value_digits(spec_src_addr(b));
    lemma_addr_value_digits(spec_dest_addr(a));
    lemma_addr_value_digits(spec_dest_addr(b));
    assert(spec_src_addr(a) =~= spec_src_addr(b));
    assert(spec_dest_addr(a) =~= spec_dest_addr(b));
}

impl Packet {
    pub fn datagram_id(&self) -> (r: u128)
        requires
            self@.len() >= 20,
        ensures
            r == spec_datagram_id(self@),
    {
        let identification: u16 = self.identification();
        let protocol: u8 = self.protocol().to_u8();
        let s = self.src_addr();
        let d = self.dest_addr();
        let src_value: u128 = (s[0] as u128) * 0x1000000 + (s[1] as u128) * 0x10000 + (
        s[2] as u128) * 0x100 + (s[3] as u128);
        let dest_value: u128 = (d[0] as u128) * 0x1000000 + (d[1] as u128) * 0x10000 + (
        d[2] as u128) * 0x100 + (d[3] as u128);

        (identification as u128) * 0x1000000000000000000 + (protocol as u128)
            * 0x10000000000000000 + src_value * 0x100000000 + dest_value
    }

    /// The index of the first octet this fragment carries.
    pub fn first(&self) -> (r: u16)
        requires
            self@.len() >= 8,
        ensures
            r == spec_first(self@),
    {
        proof {
            let b6 = self@[6];
            assert(b6 & 0x1f < 0x20) by (bit_vector);
        }
        self.offset() * 8
    }

    /// The index of the last octet this fragment carries.
    pub fn last(&self) -> (r: u16)
        requires
            spec_frag_ok(self@),
        ensures
            r == spec_last(self@),
    {
        proof {
            let b6 = self@[6];
            assert(b6 & 0x1f < 0x20) by (bit_vector);
        }
        let payload_len = self.payload().len();
        self.first() + (payload_len as u16 - 1)
    }
}

/// The holes a single hole leaves after the octets `first ..= last` arrive:
/// itself where the fragment misses it; otherwise a lower remainder, and an
/// upper remainder kept only while more fragments are expected.
pub open spec fn spec_clip_hole(h: HoleDescriptor, first: int, last: int, mf: bool) -> Seq<
    HoleDescriptor,
> {
    if first <= h.last && last >= h.first {
        let lower: Seq<HoleDescriptor> = if first > h.first {
            seq![HoleDescriptor { first: h.first, last: (first - 1) as u16 }]
        } else {
            seq![]
        };
        let upper: Seq<HoleDescriptor> = if last < h.last && mf {
            seq![HoleDescriptor { first: (last + 1) as u16, last: h.last }]
        } else {
            seq![]
        };
        lower + upper
    } else {
        seq![h]
    }
}

pub open spec fn spec_clip_holes(hs: Seq<HoleDescriptor>, first: int, last: int, mf: bool) -> Seq<
    HoleDescriptor,
>
    decreases hs.len(),
{
    if hs.len() == 0 {
        Seq::empty()
    } else {
        spec_clip_hole(hs[0], first, last, mf) + spec_clip_holes(hs.skip(1), first, last, mf)
    }
}

/// Whether any hole intersects the octets `first ..= last`.
pub open spec fn spec_any_intersect(hs: Seq<HoleDescriptor>, first: int, last: int) -> bool {
    exists|i: int| 0 <= i < hs.len() && first <= hs[i].last && last >= hs[i].first
}

proof fn lemma_clip_holes_snoc(hs: Seq<HoleDescriptor>, h: HoleDescriptor, first: int, last: int, mf: bool)
    ensures
        spec_clip_holes(hs.push(h), first, last, mf) == spec_clip_holes(hs, first, last, mf)
            + spec_clip_hole(h, first, last, mf),
    decreases hs.len(),
{
    if hs.len() == 0 {
        assert(hs.push(h)[0] == h);
        assert(hs.push(h).skip(1) =~= Seq::<HoleDescriptor>::empty());
        assert(spec_clip_holes(hs.push(h), first, last, mf) == spec_clip_hole(h, first, last, mf)
            + spec_clip_holes(Seq::<HoleDescriptor>::empty(), first, last, mf));
        assert(spec_clip_hole(h, first, last, mf) + Seq::<HoleDescriptor>::empty()
            =~= spec_clip_hole(h, first, last, mf));
        assert(spec_clip_holes(hs, first, last, mf) == Seq::<HoleDescriptor>::empty());
        assert(Seq::<HoleDescriptor>::empty() + spec_clip_hole(h, first, last, mf)
            =~= spec_clip_hole(h, first, last, mf));
    } else {
        assert(hs.push(h).skip(1) =~= hs.skip(1).push(h));
        lemma_clip_holes_snoc(hs.skip(1), h, first, last, mf);
        assert(spec_clip_holes(hs.push(h), first, last, mf) =~= spec_clip_holes(hs, first, last, mf)
            + spec_clip_hole(h, first, last, mf));
    }
}

/// Fragments kept in ascending order of their first octet.
pub open spec fn spec_frags_sorted(frags: Seq<Packet>) -> bool {
    forall|i: int, j: int|
        0 <= i < j < frags.len() ==> spec_first(frags[i]@) <= spec_first(frags[j]@)
}

/// The datagram being reassembled: the outstanding holes, the accepted
/// fragments in ascending first-octet order, the data length learned from
/// the final fragment, and the pending expiry budget.
pub struct IncompleteDatagram {
    pub reassembly_timer: ReassemblyTimer,
    pub holes: Vec<HoleDescriptor>,
    pub fragments: Vec<Packet>,
    pub total_data_len: usize,
}

impl IncompleteDatagram {
    /// What every reachable reassembly state satisfies.
    pub open spec fn wf(self) -> bool {
        &&& forall|i: int| 0 <= i < self.fragments@.len() ==> spec_frag_ok(
            #[trigger] self.fragments@[i]@,
        )
        &&& spec_frags_sorted(self.fragments@)
        &&& self.total_data_len <= 0x10000
    }
}

impl Default for IncompleteDatagram {
    fn default() -> (r: Self)
        ensures
            r.holes@ =~= seq![HoleDescriptor { first: 0, last: DEFAULT_HDUB }],
            r.fragments@ =~= Seq::<Packet>::empty(),
            r.total_data_len == 0,
            r.reassembly_timer.timeout == DEFAULT_TLB,
            r.wf(),
    {
        let mut holes: Vec<HoleDescriptor> = Vec::new();
        holes.push(HoleDescriptor::default());
        let r = Self {
            reassembly_timer: ReassemblyTimer::default(),
            holes,
            fragments: Vec::new(),
            total_data_len: 0,
        };
        proof {
            assert(r.holes@ =~= seq![HoleDescriptor { first: 0, last: DEFAULT_HDUB }]);
        }
        r
    }
}

/// How one `insert` call relates the state after to the state before.
pub open spec fn spec_inserted(d0: IncompleteDatagram, f: Packet, d1: IncompleteDatagram) -> bool {
    let first = spec_first(f@);
    let last = spec_last(f@);
    let mf = spec_more_fragments(f@);
    &&& d1.holes@ == spec_clip_holes(d0.holes@, first, last, mf)
    &&& d1.total_data_len as int == (if mf {
        d0.total_data_len as int
    } else {
        last + 1
    })
    &&& d1.reassembly_timer == d0.reassembly_timer
    &&& (spec_any_intersect(d0.holes@, first, last) ==> exists|p: int|
        0 <= p <= d0.fragments@.len() && d1.fragments@ == d0.fragments@.insert(p, f))
    &&& (!spec_any_intersect(d0.holes@, first, last) ==> d1.fragments@ == d0.fragments@)
}

impl IncompleteDatagram {
    /// Inserts a fragment, replacing every hole it touches by the parts it
    /// leaves open (RFC 815); a fragment touching no hole is redundant and
    /// is discarded.
    pub fn insert(&mut self, fragment: Packet)
        requires
            old(self).wf(),
            spec_frag_ok(fragment@),
        ensures
            final(self).wf(),
            spec_inserted(*old(self), fragment, *final(self)),
    {
        let more_fragments = fragment.more_fragments();
        let first = fragment.first();
        let last = fragment.last();

        if !more_fragments {
            self.total_data_len = fragment.total_len() as usize - (fragment.header_len()
                as usize) * 4 + first as usize;
            proof {
                assert(self.total_data_len as int == spec_last(fragment@) + 1);
            }
        }

        let ghost holes0 = self.holes@;
        let mut new_holes: Vec<HoleDescriptor> = Vec::new();
        let mut filled = false;
        let mut i: usize = 0;
        while i < self.holes.len()
            invariant
                self.holes@ == holes0,
                i <= holes0.len(),
                first == spec_first(fragment@),
                last == spec_last(fragment@),
                more_fragments == spec_more_fragments(fragment@),
                spec_frag_ok(fragment@),
                new_holes@ == spec_clip_holes(holes0.take(i as int), first as int, last as int,
                    more_fragments),
                filled == spec_any_intersect(holes0.take(i as int), first as int, last as int),
            decreases holes0.len() - i,
        {
            let h = self.holes[i];
            proof {
                assert(holes0.take(i as int).push(h) =~= holes0.take(i as int + 1));
                lemma_clip_holes_snoc(holes0.take(i as int), h, first as int, last as int,
                    more_fragments);
            }
            if first <= h.last && last >= h.first {
                filled = true;
                if first > h.first {
                    new_holes.push(HoleDescriptor::new(h.first, first - 1));
                }
                if last < h.last && more_fragments {
                    new_holes.push(HoleDescriptor::new(last + 1, h.last));
                }
            } else {
                new_holes.push(h);
            }
            proof {
                assert(new_holes@ =~= spec_clip_holes(holes0.take(i as int + 1), first as int,
                    last as int, more_fragments));
                assert(spec_any_intersect(holes0.take(i as int + 1), first as int, last as int)
                    == (spec_any_intersect(holes0.take(i as int), first as int, last as int)
                    || (first <= h.last && last >= h.first))) by {
                    let hs1 = holes0.take(i as int + 1);
                    let hs0 = holes0.take(i as int);
                    if spec_any_intersect(hs1, first as int, last as int) {
                        let k = choose|k: int|
                            0 <= k < hs1.len() && first <= hs1[k].last && last >= hs1[k].first;
                        if k < i {
                            assert(hs0[k] == hs1[k]);
                            assert(spec_any_intersect(hs0, first as int, last as int));
                        } else {
                            assert(hs1[k] == h);
                        }
                    }
                    if spec_any_intersect(hs0, first as int, last as int) {
                        let k = choose|k: int|
                            0 <= k < hs0.len() && first <= hs0[k].last && last >= hs0[k].first;
                        assert(hs1[k] == hs0[k]);
                        assert(spec_any_intersect(hs1, first as int, last as int));
                    }
                    if first <= h.last && last >= h.first {
                        assert(hs1[i as int] == h);
                        assert(spec_any_intersect(hs1, first as int, last as int));
                    }
                };
            }
            i = i + 1;
        }
        proof {
            assert(holes0.take(holes0.len() as int) =~= holes0);
        }
        self.holes = new_holes;

        if filled {
            let frag_first = first;
            let mut pos: usize = 0;
            loop
                invariant
                    old(self).wf(),
                    pos <= self.fragments@.len(),
                    self.fragments@ == old(self).fragments@,
                    frag_first == spec_first(fragment@),
                    forall|j: int|
                        0 <= j < pos ==> spec_first(#[trigger] self.fragments@[j]@)
                            <= frag_first,
                ensures
                    pos <= self.fragments@.len(),
                    self.fragments@ == old(self).fragments@,
                    forall|j: int|
                        0 <= j < pos ==> spec_first(#[trigger] self.fragments@[j]@)
                            <= frag_first,
                    pos < self.fragments@.len() ==> spec_first(self.fragments@[pos as int]@)
                        > frag_first,
                decreases self.fragments@.len() - pos,
            {
                if pos >= self.fragments.len() {
                    break;
                }
                let probe = self.fragments[pos].first();
                if probe > frag_first {
                    break;
                }
                pos = pos + 1;
            }
            self.fragments.insert(pos, fragment);
            proof {
                let fs0 = old(self).fragments@;
                let fs1 = self.fragments@;
                let p = pos as int;
                assert(fs1 == fs0.insert(p, fragment));
                assert forall|a: int, b: int| 0 <= a < b < fs1.len() implies spec_first(
                    fs1[a]@) <= spec_first(fs1[b]@) by {
                    if a < p && b < p {
                        assert(fs1[a] == fs0[a] && fs1[b] == fs0[b]);
                    } else if a < p && b == p {
                        assert(fs1[a] == fs0[a]);
                    } else if a < p && b > p {
                        assert(fs1[a] == fs0[a] && fs1[b] == fs0[b - 1]);
                        assert(spec_first(fs0[a]@) <= spec_first(fs0[b - 1]@));
                    } else if a == p && b > p {
                        assert(fs1[b] == fs0[b - 1]);
                        assert(b - 1 >= p);
                        assert(spec_first(fs0[p]@) > spec_first(fragment@));
                        assert(spec_first(fs0[b - 1]@) >= spec_first(fs0[p]@));
                    } else {
                        assert(a > p && b > p);
                        assert(fs1[a] == fs0[a - 1] && fs1[b] == fs0[b - 1]);
                    }
                };
            }
        }
    }
}

/// The reassembled data, assembled front to back over the sorted fragments:
/// an `end` cursor tracks the octets already emitted; each fragment
/// contributes its octets from `end` on, wholly-emitted fragments are
/// skipped, and a fragment starting past `end` leaves a gap that cannot be
/// closed.
pub open spec fn spec_assemble(frags: Seq<Packet>, end: int) -> Option<Seq<u8>>
    decreases frags.len(),
{
    if frags.len() == 0 {
        Some(Seq::empty())
    } else {
        let f = frags[0]@;
        if spec_last(f) < end {
            spec_assemble(frags.skip(1), end)
        } else if spec_first(f) > end {
            None
        } else {
            match spec_assemble(frags.skip(1), spec_last(f) + 1) {
                Some(rest) => Some(
                    spec_payload(f).subrange(end - spec_first(f), spec_last(f) + 1 - spec_first(f))
                        + rest,
                ),
                None => None,
            }
        }
    }
}

/// The header of the datagram that completion emits: the first fragment's
/// fields, offset 0, MF cleared, checksum recomputed.
pub open spec fn spec_reassembled_cfg(f0: Seq<u8>, total: int) -> HeaderConfig {
    HeaderConfig {
        version: crate::ipv4::packet::VERSION,
        header_len: spec_header_len(f0),
        tos: spec_tos(f0),
        total_len: (spec_header_len(f0) * 4 + total) as u16,
        identification: spec_identification(f0),
        flags: spec_flags(f0) & 0xfe,
        offset: 0,
        ttl: spec_ttl(f0),
        protocol: spec_protocol(f0),
        checksum: 0,
        src_addr: spec_src_addr(f0),
        dest_addr: spec_dest_addr(f0),
    }
}

/// When completion emits a datagram: no hole is outstanding, at least one
/// fragment arrived, the fragments assemble without a gap into exactly
/// `total_data_len` octets, and the result fits a 16-bit total length.
pub open spec fn spec_complete_ok(d: IncompleteDatagram) -> bool {
    &&& d.holes@.len() == 0
    &&& d.fragments@.len() > 0
    &&& (spec_assemble(d.fragments@, 0) matches Some(p) && p.len() == d.total_data_len)
    &&& spec_header_len(d.fragments@[0]@) * 4 + d.total_data_len <= 0xffff
}

/// The bytes of the emitted datagram.
pub open spec fn spec_complete_bytes(d: IncompleteDatagram) -> Seq<u8> {
    spec_build_cfg(
        spec_reassembled_cfg(d.fragments@[0]@, d.total_data_len as int),
        spec_assemble(d.fragments@, 0).unwrap(),
    )
}

impl IncompleteDatagram {
    /// The reassembled complete datagram, once every hole is filled.
    pub fn complete(&self) -> (r: Option<Packet>)
        requires
            self.wf(),
        ensures
            r is Some <==> spec_complete_ok(*self),
            spec_complete_ok(*self) ==> (r matches Some(d) && d@ == spec_complete_bytes(*self)),
    {
        if self.holes.len() > 0 {
            return None;
        }

        let ghost frags = self.fragments@;
        let mut end: usize = 0;
        let mut payload: Vec<u8> = Vec::new();
        let mut i: usize = 0;

        proof {
            assert(frags.skip(0) =~= frags);
            match spec_assemble(frags, 0) {
                Some(rest) => {
                    assert(Seq::<u8>::empty() + rest =~= rest);
                },
                None => {},
            }
        }
        while i < self.fragments.len()
            invariant
                self.wf(),
                frags == self.fragments@,
                i <= frags.len(),
                payload@.len() == end,
                end <= 0x10000,
                (spec_assemble(frags.skip(i as int), end as int) matches Some(rest)
                    ==> spec_assemble(frags, 0) == Some(payload@ + rest)),
                (spec_assemble(frags.skip(i as int), end as int) is None ==> spec_assemble(
                    frags,
                    0,
                ) is None),
            decreases frags.len() - i,
        {
            let f = &self.fragments[i];
            let first = f.first();
            let last = f.last();
            proof {
                assert(frags.skip(i as int)[0] == frags[i as int]);
                assert(frags.skip(i as int).skip(1) =~= frags.skip(i as int + 1));
            }
            if (last as usize) >= end {
                if (first as usize) > end {
                    return None;
                }
                let ghost payload_old = payload@;
                let ghost end_old = end as int;
                let ghost fv = frags[i as int]@;
                let fp = f.payload();
                let mut piece = crate::ipv4::packet::copy_range(fp, end - (first as usize),
                    fp.len());
                let ghost piece_spec = spec_payload(fv).subrange(end_old - spec_first(fv),
                    spec_last(fv) + 1 - spec_first(fv));
                proof {
                    assert(piece@ =~= piece_spec);
                }
                payload.append(&mut piece);
                end = (last as usize) + 1;
                proof {
                    match spec_assemble(frags.skip(i as int + 1), end as int) {
                        Some(rest) => {
                            assert(spec_assemble(frags.skip(i as int), end_old) == Some(
                                piece_spec + rest));
                            assert(payload_old + (piece_spec + rest) =~= payload@ + rest);
                        },
                        None => {
                            assert(spec_assemble(frags.skip(i as int), end_old) is None);
                        },
                    }
                }
            }
            i = i + 1;
        }

        proof {
            assert(frags.skip(frags.len() as int) =~= Seq::<Packet>::empty());
            assert(payload@ + Seq::<u8>::empty() =~= payload@);
        }

        if payload.len() != self.total_data_len {
            return None;
        }
        if self.fragments.len() == 0 {
            return None;
        }

        let first_fragment = &self.fragments[0];
        let header_len = first_fragment.header_len();
        let header_bytes: usize = (header_len as usize) * 4;
        if header_bytes + payload.len() > 0xffff {
            return None;
        }

        let bldr = PacketBuilder::default()
            .header_len(header_len)
            .tos(first_fragment.tos())
            .total_len((header_bytes + payload.len()) as u16)
            .identification(first_fragment.identification())
            .flags(first_fragment.flags() & 0xfe)
            .offset(0)
            .ttl(first_fragment.ttl())
            .protocol(first_fragment.protocol())
            .src_addr(first_fragment.src_addr())
            .dest_addr(first_fragment.dest_addr())
            .payload(payload);
        proof {
            assert(bldr.cfg() =~= spec_reassembled_cfg(frags[0]@, self.total_data_len as int));
            assert(spec_frag_ok(frags[0]@));
            let b0 = frags[0]@[0];
            assert(b0 & 0x0f <= 15) by (bit_vector);
        }
        let datagram = bldr.build();
        Some(datagram)
    }
}

/// One datagram under reassembly, keyed by its 128-bit identity.
pub struct ReassemblyEntry {
    pub id: u128,
    pub datagram: IncompleteDatagram,
}

/// The first index holding `id`, or -1.
pub open spec fn spec_find_index(s: Seq<ReassemblyEntry>, id: u128) -> int
    decreases s.len(),
{
    if s.len() == 0 {
        -1
    } else if s[0].id == id {
        0
    } else {
        let r = spec_find_index(s.skip(1), id);
        if r < 0 {
            -1
        } else {
            r + 1
        }
    }
}

pub proof fn lemma_find_index_char(s: Seq<ReassemblyEntry>, id: u128)
    ensures
        ({
            let r = spec_find_index(s, id);
            &&& (r == -1 ==> forall|j: int| 0 <= j < s.len() ==> (#[trigger] s[j]).id != id)
            &&& (r != -1 ==> 0 <= r < s.len() && s[r].id == id && (forall|j: int|
                0 <= j < r ==> (#[trigger] s[j]).id != id))
        }),
    decreases s.len(),
{
    if s.len() > 0 && s[0].id != id {
        lemma_find_index_char(s.skip(1), id);
        let r1 = spec_find_index(s.skip(1), id);
        let r = spec_find_index(s, id);
        if r == -1 {
            assert forall|j: int| 0 <= j < s.len() implies (#[trigger] s[j]).id != id by {
                if j >= 1 {
                    assert(s.skip(1)[j - 1] == s[j]);
                }
            };
        } else {
            assert(s[r] == s.skip(1)[r1]);
            assert forall|j: int| 0 <= j < r implies (#[trigger] s[j]).id != id by {
                if j >= 1 {
                    assert(s.skip(1)[j - 1] == s[j]);
                }
            };
        }
    }
}

/// The fresh reassembly state for a newly seen datagram identity.
pub open spec fn spec_is_initial(d: IncompleteDatagram) -> bool {
    &&& d.holes@ == seq![HoleDescriptor { first: 0, last: DEFAULT_HDUB }]
    &&& d.fragments@ == Seq::<Packet>::empty()
    &&& d.total_data_len == 0
    &&& d.reassembly_timer.timeout == DEFAULT_TLB
}

/// The state the arriving fragment is inserted into: the entry already held
/// for its identity, or a fresh one.
pub open spec fn spec_prior_entry(
    s: Seq<ReassemblyEntry>,
    id: u128,
    d0: IncompleteDatagram,
) -> bool {
    let i0 = spec_find_index(s, id);
    if i0 >= 0 {
        d0 == s[i0].datagram
    } else {
        spec_is_initial(d0)
    }
}

/// Reconstructs complete datagrams from fragments, one reassembly context
/// per datagram identity.
pub struct Reassembler {
    pub entries: Vec<ReassemblyEntry>,
}

impl Reassembler {
    /// Identities are unique and every context is well-formed.
    pub open spec fn wf(self) -> bool {
        &&& forall|i: int, j: int|
            0 <= i < j < self.entries@.len() ==> (#[trigger] self.entries@[i]).id != (
            #[trigger] self.entries@[j]).id
        &&& forall|i: int|
            0 <= i < self.entries@.len() ==> (#[trigger] self.entries@[i]).datagram.wf()
    }

    /// Whether a datagram with this identity is under reassembly.
    pub fn contains(&self, datagram_id: u128) -> (r: bool)
        ensures
            r == (spec_find_index(self.entries@, datagram_id) >= 0),
    {
        self.find(datagram_id).is_some()
    }

    fn find(&self, datagram_id: u128) -> (r: Option<usize>)
        ensures
            r matches Some(i) ==> i == spec_find_index(self.entries@, datagram_id),
            r is None ==> spec_find_index(self.entries@, datagram_id) == -1,
    {
        proof {
            lemma_find_index_char(self.entries@, datagram_id);
        }
        let mut i: usize = 0;
        while i < self.entries.len()
            invariant
                i <= self.entries@.len(),
                forall|j: int| 0 <= j < i ==> (#[trigger] self.entries@[j]).id != datagram_id,
            decreases self.entries@.len() - i,
        {
            if self.entries[i].id == datagram_id {
                proof {
                    lemma_find_index_char(self.entries@, datagram_id);
                }
                return Some(i);
            }
            i = i + 1;
        }
        None
    }

    /// Discards the datagram under reassembly for this identity, if any.
    pub fn release(&mut self, datagram_id: u128)
        requires
            old(self).wf(),
        ensures
            final(self).wf(),
            spec_find_index(final(self).entries@, datagram_id) == -1,
            ({
                let i0 = spec_find_index(old(self).entries@, datagram_id);
                if i0 < 0 {
                    final(self).entries@ == old(self).entries@
                } else {
                    final(self).entries@ == old(self).entries@.remove(i0)
                }
            }),
    {
        proof {
            lemma_find_index_char(self.entries@, datagram_id);
        }
        match self.find(datagram_id) {
            Some(i) => {
                self.entries.remove(i);
                proof {
                    lemma_find_index_char(self.entries@, datagram_id);
                    let r = spec_find_index(self.entries@, datagram_id);
                    if r != -1 {
                        let i0 = spec_find_index(old(self).entries@, datagram_id);
                        assert(self.entries@[r] == if r < i0 {
                            old(self).entries@[r]
                        } else {
                            old(self).entries@[r + 1]
                        });
                        assert(false);
                    }
                }
            },
            None => {},
        }
    }
}

impl Default for Reassembler {
    fn default() -> (r: Self)
        ensures
            r.entries@.len() == 0,
            r.wf(),
    {
        Self { entries: Vec::new() }
    }
}

/// How one `reassemble` call relates the store and its outcome to the
/// fragment fed in: the fragment was inserted (RFC 815) into its identity's
/// prior context — a fresh one on first sight — whose timeout then became
/// `t`; the updated context either completed, emitting exactly its
/// reassembled bytes and leaving the store, or stayed, with nothing
/// emitted.
pub open spec fn spec_reassemble_step(
    entries0: Seq<ReassemblyEntry>,
    entries1: Seq<ReassemblyEntry>,
    f: Packet,
    t: u8,
    completed: Option<Packet>,
) -> bool {
    exists|d0: IncompleteDatagram, d1: IncompleteDatagram|
        #![trigger spec_inserted(d0, f, d1)]
        {
            let id = spec_datagram_id(f@);
            let d2 = IncompleteDatagram { reassembly_timer: ReassemblyTimer { timeout: t }, ..d1 };
            &&& spec_prior_entry(entries0, id, d0)
            &&& spec_inserted(d0, f, d1)
            &&& spec_complete_ok(d2) ==> ({
                &&& (completed matches Some(p) && p@ == spec_complete_bytes(d2))
                &&& spec_find_index(entries1, id) == -1
            })
            &&& !spec_complete_ok(d2) ==> ({
                let i1 = spec_find_index(entries1, id);
                &&& completed is None
                &&& i1 >= 0
                &&& entries1[i1].datagram == d2
            })
        }
}

impl Reassembler {
    /// Feeds one fragment into the context of its datagram identity:
    /// creates the context on first sight, applies the RFC 815 insertion,
    /// raises the reassembly timeout to at least the fragment's TTL, and
    /// emits the reassembled datagram once it is complete, dropping the
    /// context. Also returns the seconds after which the caller must evict
    /// the context, anew on every fragment.
    pub fn reassemble(&mut self, fragment: Packet) -> (r: (Option<Packet>, u8))
        requires
            old(self).wf(),
            spec_frag_ok(fragment@),
        ensures
            final(self).wf(),
            ({
                let id = spec_datagram_id(fragment@);
                let i0 = spec_find_index(old(self).entries@, id);
                let prior: u8 = if i0 >= 0 {
                    old(self).entries@[i0].datagram.reassembly_timer.timeout
                } else {
                    DEFAULT_TLB
                };
                let t: u8 = if prior >= spec_ttl(fragment@) {
                    prior
                } else {
                    spec_ttl(fragment@)
                };
                &&& r.1 == t
                &&& spec_reassemble_step(
                    old(self).entries@,
                    final(self).entries@,
                    fragment,
                    t,
                    r.0,
                )
                &&& forall|k: int|
                    0 <= k < final(self).entries@.len()
                        && (#[trigger] final(self).entries@[k]).id != id
                        ==> old(self).entries@.contains(final(self).entries@[k])
                &&& forall|k: int|
                    0 <= k < old(self).entries@.len() && (#[trigger] old(self).entries@[k]).id
                        != id ==> final(self).entries@.contains(old(self).entries@[k])
            }),
    {
        let ttl = fragment.ttl();
        let datagram_id = fragment.datagram_id();

        proof {
            lemma_find_index_char(self.entries@, datagram_id);
        }
        let ghost entries0 = self.entries@;
        let ghost i0 = spec_find_index(entries0, datagram_id);

        let mut entry: ReassemblyEntry = match self.find(datagram_id) {
            Some(i) => self.entries.remove(i),
            None => ReassemblyEntry { id: datagram_id, datagram: IncompleteDatagram::default() },
        };
        let ghost d0 = entry.datagram;
        let ghost mid = self.entries@;

        entry.datagram.insert(fragment);
        let ghost d1 = entry.datagram;

        let prior_timeout = entry.datagram.reassembly_timer.timeout;
        let timeout = if prior_timeout >= ttl {
            prior_timeout
        } else {
            ttl
        };
        entry.datagram.reassembly_timer.timeout = timeout;
        let ghost d2 = entry.datagram;
        proof {
            assert(d2 == IncompleteDatagram {
                reassembly_timer: ReassemblyTimer { timeout },
                ..d1
            });
            assert(spec_prior_entry(entries0, datagram_id, d0));
            // entries not holding this identity survive into `mid`
            if i0 >= 0 {
                assert(mid == entries0.remove(i0));
                assert forall|k: int|
                    0 <= k < mid.len() implies entries0.contains(#[trigger] mid[k]) by {
                    if k < i0 {
                        assert(mid[k] == entries0[k]);
                    } else {
                        assert(mid[k] == entries0[k + 1]);
                    }
                };
                assert forall|k: int|
                    0 <= k < entries0.len() && (#[trigger] entries0[k]).id != datagram_id
                    implies mid.contains(entries0[k]) by {
                    if k < i0 {
                        assert(mid[k] == entries0[k]);
                    } else {
                        assert(k != i0);
                        assert(mid[k - 1] == entries0[k]);
                    }
                };
                assert(forall|k: int|
                    0 <= k < mid.len() ==> (#[trigger] mid[k]).id != datagram_id) by {
                    lemma_find_index_char(entries0, datagram_id);
                };
            } else {
                assert(mid == entries0);
            }
        }

        let completed = entry.datagram.complete();
        match completed {
            Some(d) => {
                proof {
                    lemma_find_index_char(self.entries@, datagram_id);
                    let r1 = spec_find_index(self.entries@, datagram_id);
                    if r1 != -1 {
                        assert((self.entries@[r1]).id == datagram_id);
                        assert(false);
                    }
                    assert(spec_inserted(d0, fragment, d1));
                }
                (Some(d), timeout)
            },
            None => {
                self.entries.push(entry);
                proof {
                    let fin = self.entries@;
                    assert(fin == mid.push(entry));
                    lemma_find_index_char(fin, datagram_id);
                    let i1 = spec_find_index(fin, datagram_id);
                    assert(fin[fin.len() - 1] == entry);
                    assert(i1 != -1);
                    assert(fin[i1].id == datagram_id);
                    assert(i1 == fin.len() - 1) by {
                        if i1 < fin.len() - 1 {
                            assert(fin[i1] == mid[i1]);
                        }
                    };
                    assert forall|k: int|
                        0 <= k < fin.len() && (#[trigger] fin[k]).id != datagram_id
                        implies entries0.contains(fin[k]) by {
                        assert(k < mid.len());
                        assert(fin[k] == mid[k]);
                        if i0 >= 0 {
                        } else {
                            assert(mid == entries0);
                        }
                    };
                    assert forall|k: int|
                        0 <= k < entries0.len() && (#[trigger] entries0[k]).id != datagram_id
                        implies fin.contains(entries0[k]) by {
                        if i0 >= 0 {
                            assert(mid.contains(entries0[k]));
                            let m = choose|m: int| 0 <= m < mid.len() && mid[m] == entries0[k];
                            assert(fin[m] == mid[m]);
                        } else {
                            assert(fin[k] == entries0[k]);
                        }
                    };
                    assert(spec_inserted(d0, fragment, d1));
                }
                (None, timeout)
            },
        }
    }
}

/// Holes in ascending order, pairwise disjoint, each well-formed.
pub open spec fn spec_holes_wf(hs: Seq<HoleDescriptor>) -> bool {
    &&& forall|i: int| 0 <= i < hs.len() ==> (#[trigger] hs[i]).first <= hs[i].last
    &&& forall|i: int, j: int|
        0 <= i < j < hs.len() ==> (#[trigger] hs[i]).last < (#[trigger] hs[j]).first
}

/// Whether octet `b` lies in some hole.
pub open spec fn spec_in_hole(hs: Seq<HoleDescriptor>, b: int) -> bool {
    exists|i: int| 0 <= i < hs.len() && (#[trigger] hs[i]).first <= b <= hs[i].last
}

/// Whether the fragment with bytes `f` carries octet `b`.
pub open spec fn spec_frag_covers(f: Seq<u8>, b: int) -> bool {
    spec_first(f) <= b <= spec_last(f)
}

/// Whether some accepted fragment carries octet `b`.
pub open spec fn spec_covered(frags: Seq<Packet>, b: int) -> bool {
    exists|i: int| 0 <= i < frags.len() && spec_frag_covers((#[trigger] frags[i])@, b)
}

/// A genuine fragment of a datagram whose data is `data.take(t)`: its
/// payload is the data at its range, and it is final exactly when it
/// reaches octet `t - 1`.
pub open spec fn spec_true_frag(f: Seq<u8>, data: Seq<u8>, t: int) -> bool {
    &&& spec_frag_ok(f)
    &&& spec_last(f) < t
    &&& spec_payload(f) == data.subrange(spec_first(f), spec_last(f) + 1)
    &&& (spec_more_fragments(f) <==> spec_last(f) < t - 1)
}

/// The reassembly invariant for a datagram of data `data.take(t)`: the
/// holes are well-formed and disjoint, every accepted fragment is genuine,
/// and on `[0, t)` the holes are exactly the octets no fragment covers; the
/// learned data length is `t` once the final fragment has been seen, and
/// before that octet `t - 1` is still uncovered.
pub open spec fn spec_good_for(
    hs: Seq<HoleDescriptor>,
    frags: Seq<Packet>,
    total: int,
    data: Seq<u8>,
    t: int,
) -> bool {
    &&& 1 <= t <= 0x10000
    &&& t <= data.len()
    &&& spec_holes_wf(hs)
    &&& forall|i: int| 0 <= i < frags.len() ==> spec_true_frag((#[trigger] frags[i])@, data, t)
    &&& forall|b: int|
        #![trigger spec_in_hole(hs, b)]
        #![trigger spec_covered(frags, b)]
        0 <= b < t ==> (spec_in_hole(hs, b) <==> !spec_covered(frags, b))
    &&& (total == t || (total == 0 && !spec_covered(frags, t - 1)))
}

/// A fresh context satisfies the invariant for any datagram.
pub proof fn lemma_initial_good(d: IncompleteDatagram, data: Seq<u8>, t: int)
    requires
        spec_is_initial(d),
        1 <= t <= 0x10000,
        t <= data.len(),
    ensures
        spec_good_for(d.holes@, d.fragments@, d.total_data_len as int, data, t),
{
    let hs = d.holes@;
    assert(hs[0] == HoleDescriptor { first: 0, last: DEFAULT_HDUB });
    assert forall|b: int| 0 <= b < t implies spec_in_hole(hs, b) by {
        assert(hs[0].first <= b <= hs[0].last);
    };
}

proof fn lemma_in_hole_concat(a: Seq<HoleDescriptor>, b: Seq<HoleDescriptor>, x: int)
    ensures
        spec_in_hole(a + b, x) == (spec_in_hole(a, x) || spec_in_hole(b, x)),
{
    let c = a + b;
    if spec_in_hole(c, x) {
        let i = choose|i: int| 0 <= i < c.len() && (#[trigger] c[i]).first <= x <= c[i].last;
        if i < a.len() {
            assert(a[i] == c[i]);
            assert(spec_in_hole(a, x));
        } else {
            assert(b[i - a.len()] == c[i]);
            assert(spec_in_hole(b, x));
        }
    }
    if spec_in_hole(a, x) {
        let i = choose|i: int| 0 <= i < a.len() && (#[trigger] a[i]).first <= x <= a[i].last;
        assert(c[i] == a[i]);
        assert(spec_in_hole(c, x));
    }
    if spec_in_hole(b, x) {
        let i = choose|i: int| 0 <= i < b.len() && (#[trigger] b[i]).first <= x <= b[i].last;
        assert(c[a.len() + i] == b[i]);
        assert(spec_in_hole(c, x));
    }
}

/// What clipping one hole keeps: octets of the hole outside the fragment,
/// except that with MF clear everything above the fragment is dropped too.
proof fn lemma_clip_hole_membership(h: HoleDescriptor, first: int, last: int, mf: bool, x: int)
    requires
        first <= last,
        h.first <= h.last,
    ensures
        mf ==> (spec_in_hole(spec_clip_hole(h, first, last, mf), x) == (h.first <= x <= h.last
            && !(first <= x <= last))),
        !mf && x <= last ==> (spec_in_hole(spec_clip_hole(h, first, last, mf), x) == (h.first
            <= x <= h.last && !(first <= x <= last))),
        spec_in_hole(spec_clip_hole(h, first, last, mf), x) ==> h.first <= x <= h.last,
{
    let c = spec_clip_hole(h, first, last, mf);
    if first <= h.last && last >= h.first {
        let lower: Seq<HoleDescriptor> = if first > h.first {
            seq![HoleDescriptor { first: h.first, last: (first - 1) as u16 }]
        } else {
            seq![]
        };
        let upper: Seq<HoleDescriptor> = if last < h.last && mf {
            seq![HoleDescriptor { first: (last + 1) as u16, last: h.last }]
        } else {
            seq![]
        };
        lemma_in_hole_concat(lower, upper, x);
        if lower.len() > 0 {
            assert(spec_in_hole(lower, x) == (lower[0].first <= x <= lower[0].last)) by {
                if lower[0].first <= x <= lower[0].last {
                    assert(spec_in_hole(lower, x));
                }
            };
        }
        if upper.len() > 0 {
            assert(spec_in_hole(upper, x) == (upper[0].first <= x <= upper[0].last)) by {
                if upper[0].first <= x <= upper[0].last {
                    assert(spec_in_hole(upper, x));
                }
            };
        }
    } else {
        assert(c == seq![h]);
        assert(spec_in_hole(c, x) == (h.first <= x <= h.last)) by {
            if h.first <= x <= h.last {
                assert(c[0].first <= x <= c[0].last);
                assert(spec_in_hole(c, x));
            }
        };
    }
}

/// Membership after clipping every hole.
proof fn lemma_clip_holes_membership(
    hs: Seq<HoleDescriptor>,
    first: int,
    last: int,
    mf: bool,
    x: int,
)
    requires
        first <= last,
        forall|i: int| 0 <= i < hs.len() ==> (#[trigger] hs[i]).first <= hs[i].last,
    ensures
        mf ==> (spec_in_hole(spec_clip_holes(hs, first, last, mf), x) == (spec_in_hole(hs, x)
            && !(first <= x <= last))),
        !mf && x <= last ==> (spec_in_hole(spec_clip_holes(hs, first, last, mf), x) == (
        spec_in_hole(hs, x) && !(first <= x <= last))),
        spec_in_hole(spec_clip_holes(hs, first, last, mf), x) ==> spec_in_hole(hs, x),
    decreases hs.len(),
{
    if hs.len() == 0 {
    } else {
        let rest = hs.skip(1);
        lemma_clip_holes_membership(rest, first, last, mf, x);
        lemma_clip_hole_membership(hs[0], first, last, mf, x);
        lemma_in_hole_concat(
            spec_clip_hole(hs[0], first, last, mf),
            spec_clip_holes(rest, first, last, mf),
            x,
        );
        assert(spec_in_hole(hs, x) == ((hs[0].first <= x <= hs[0].last) || spec_in_hole(rest, x)))
            by {
            if spec_in_hole(hs, x) {
                let i = choose|i: int|
                    0 <= i < hs.len() && (#[trigger] hs[i]).first <= x <= hs[i].last;
                if i > 0 {
                    assert(rest[i - 1] == hs[i]);
                    assert(spec_in_hole(rest, x));
                }
            }
            if spec_in_hole(rest, x) {
                let i = choose|i: int|
                    0 <= i < rest.len() && (#[trigger] rest[i]).first <= x <= rest[i].last;
                assert(hs[i + 1] == rest[i]);
                assert(spec_in_hole(hs, x));
            }
            if hs[0].first <= x <= hs[0].last {
                assert(spec_in_hole(hs, x));
            }
        };
    }
}

/// Clipping keeps holes well-formed: every piece lies within some original
/// hole, and order and disjointness survive.
proof fn lemma_clip_holes_wf(hs: Seq<HoleDescriptor>, first: int, last: int, mf: bool)
    requires
        spec_holes_wf(hs),
        0 <= first <= last <= 0xffff,
    ensures
        spec_holes_wf(spec_clip_holes(hs, first, last, mf)),
        forall|k: int|
            0 <= k < spec_clip_holes(hs, first, last, mf).len() ==> exists|j: int|
                0 <= j < hs.len() && hs[j].first <= (#[trigger] spec_clip_holes(
                    hs,
                    first,
                    last,
                    mf,
                )[k]).first && spec_clip_holes(hs, first, last, mf)[k].last <= hs[j].last,
    decreases hs.len(),
{
    let c = spec_clip_holes(hs, first, last, mf);
    if hs.len() == 0 {
    } else {
        let h = hs[0];
        let head = spec_clip_hole(h, first, last, mf);
        let rest = hs.skip(1);
        let tail = spec_clip_holes(rest, first, last, mf);
        assert(spec_holes_wf(rest)) by {
            assert(forall|i: int| 0 <= i < rest.len() ==> rest[i] == hs[i + 1]);
        };
        lemma_clip_holes_wf(rest, first, last, mf);

        // each piece of the head lies within h, and the head is ordered
        assert(forall|k: int|
            0 <= k < head.len() ==> h.first <= (#[trigger] head[k]).first && head[k].last
                <= h.last && head[k].first <= head[k].last);
        assert(forall|k1: int, k2: int|
            0 <= k1 < k2 < head.len() ==> (#[trigger] head[k1]).last < (
            #[trigger] head[k2]).first);

        assert(spec_holes_wf(c)) by {
            assert(c == head + tail);
            assert forall|i: int| 0 <= i < c.len() implies (#[trigger] c[i]).first
                <= c[i].last by {
                if i < head.len() {
                    assert(c[i] == head[i]);
                } else {
                    assert(c[i] == tail[i - head.len()]);
                }
            };
            assert forall|i: int, j: int| 0 <= i < j < c.len() implies (#[trigger] c[i]).last
                < (#[trigger] c[j]).first by {
                if j < head.len() {
                    assert(c[i] == head[i] && c[j] == head[j]);
                } else if i >= head.len() {
                    assert(c[i] == tail[i - head.len()] && c[j] == tail[j - head.len()]);
                } else {
                    assert(c[i] == head[i] && c[j] == tail[j - head.len()]);
                    let m = choose|m: int|
                        0 <= m < rest.len() && rest[m].first <= (#[trigger] tail[j - head.len(
                        )]).first && tail[j - head.len()].last <= rest[m].last;
                    assert(rest[m] == hs[m + 1]);
                    assert(h.last < hs[m + 1].first);
                    assert(c[i].last <= h.last);
                }
            };
        };
        assert forall|k: int| 0 <= k < c.len() implies exists|j: int|
            0 <= j < hs.len() && hs[j].first <= (#[trigger] c[k]).first && c[k].last
                <= hs[j].last by {
            assert(c == head + tail);
            if k < head.len() {
                assert(c[k] == head[k]);
                assert(hs[0].first <= c[k].first && c[k].last <= hs[0].last);
            } else {
                assert(c[k] == tail[k - head.len()]);
                let m = choose|m: int|
                    0 <= m < rest.len() && rest[m].first <= (#[trigger] tail[k - head.len(
                    )]).first && tail[k - head.len()].last <= rest[m].last;
                assert(rest[m] == hs[m + 1]);
                assert(hs[m + 1].first <= c[k].first && c[k].last <= hs[m + 1].last);
            }
        };
    }
}

/// Inserting a fragment into the list touches coverage only at its range.
proof fn lemma_covered_insert(frags: Seq<Packet>, f: Packet, p: int, x: int)
    requires
        0 <= p <= frags.len(),
    ensures
        spec_covered(frags.insert(p, f), x) == (spec_covered(frags, x) || spec_frag_covers(
            f@,
            x,
        )),
{
    let c = frags.insert(p, f);
    if spec_covered(c, x) {
        let i = choose|i: int| 0 <= i < c.len() && spec_frag_covers((#[trigger] c[i])@, x);
        if i < p {
            assert(c[i] == frags[i]);
            assert(spec_covered(frags, x));
        } else if i == p {
            assert(c[i] == f);
        } else {
            assert(c[i] == frags[i - 1]);
            assert(spec_covered(frags, x));
        }
    }
    if spec_covered(frags, x) {
        let i = choose|i: int| 0 <= i < frags.len() && spec_frag_covers((#[trigger] frags[i])@, x);
        if i < p {
            assert(c[i] == frags[i]);
            assert(spec_covered(c, x));
        } else {
            assert(c[i + 1] == frags[i]);
            assert(spec_covered(c, x));
        }
    }
    if spec_frag_covers(f@, x) {
        assert(c[p] == f);
        assert(spec_covered(c, x));
    }
}

/// The hole invariant is preserved by insertion (RFC 815): after any
/// genuine fragment is inserted, the holes are still pairwise disjoint and
/// are exactly the uncovered octets of `[0, t)`.
pub proof fn lemma_insert_preserves_good(
    hs: Seq<HoleDescriptor>,
    frags: Seq<Packet>,
    total: int,
    data: Seq<u8>,
    t: int,
    f: Packet,
    p: int,
)
    requires
        spec_good_for(hs, frags, total, data, t),
        spec_true_frag(f@, data, t),
        0 <= p <= frags.len(),
    ensures
        ({
            let first = spec_first(f@);
            let last = spec_last(f@);
            let mf = spec_more_fragments(f@);
            let hs2 = spec_clip_holes(hs, first, last, mf);
            let total2: int = if mf {
                total
            } else {
                last + 1
            };
            let frags2 = if spec_any_intersect(hs, first, last) {
                frags.insert(p, f)
            } else {
                frags
            };
            spec_good_for(hs2, frags2, total2, data, t)
        }),
{
    let first = spec_first(f@);
    let last = spec_last(f@);
    let mf = spec_more_fragments(f@);
    let hs2 = spec_clip_holes(hs, first, last, mf);
    let total2: int = if mf {
        total
    } else {
        last + 1
    };
    assert(first <= last);
    assert(last <= 0xffff);
    lemma_clip_holes_wf(hs, first, last, mf);
    if !mf {
        assert(last == t - 1);
    }

    if spec_any_intersect(hs, first, last) {
        let frags2 = frags.insert(p, f);
        assert(forall|i: int|
            0 <= i < frags2.len() ==> frags2[i] == f || frags.contains(#[trigger] frags2[i]))
            by {
            assert forall|i: int|
                0 <= i < frags2.len() implies frags2[i] == f || frags.contains(
                #[trigger] frags2[i]) by {
                if i < p {
                    assert(frags2[i] == frags[i]);
                } else if i > p {
                    assert(frags2[i] == frags[i - 1]);
                }
            };
        };
        assert forall|i: int| 0 <= i < frags2.len() implies spec_true_frag(
            (#[trigger] frags2[i])@, data, t) by {
            if frags2[i] != f {
                let j = choose|j: int| 0 <= j < frags.len() && frags[j] == frags2[i];
            }
        };
        assert forall|b: int|
            #![trigger spec_in_hole(hs2, b)]
            #![trigger spec_covered(frags2, b)]
            0 <= b < t implies (spec_in_hole(hs2, b) <==> !spec_covered(frags2, b)) by {
            lemma_clip_holes_membership(hs, first, last, mf, b);
            lemma_covered_insert(frags, f, p, b);
        };
        if mf && total == 0 {
            lemma_covered_insert(frags, f, p, t - 1);
            assert(!spec_frag_covers(f@, t - 1));
        }
    } else {
        // the fragment touched no hole: clipping is the identity, and the
        // discarded fragment's octets were covered already
        assert(hs2 =~= hs) by {
            lemma_clip_noop(hs, first, last, mf);
        };
        assert forall|b: int|
            #![trigger spec_in_hole(hs2, b)]
            #![trigger spec_covered(frags, b)]
            0 <= b < t implies (spec_in_hole(hs2, b) <==> !spec_covered(frags, b)) by {
            assert(spec_in_hole(hs2, b) == spec_in_hole(hs, b));
        };
    }
}

/// The invariant holds after every `insert` call: `insert` ensures
/// `spec_inserted`, and any state so related to an invariant state is again
/// in the invariant.
pub proof fn lemma_inserted_preserves_good(
    d0: IncompleteDatagram,
    f: Packet,
    d1: IncompleteDatagram,
    data: Seq<u8>,
    t: int,
)
    requires
        spec_inserted(d0, f, d1),
        spec_good_for(d0.holes@, d0.fragments@, d0.total_data_len as int, data, t),
        spec_true_frag(f@, data, t),
    ensures
        spec_good_for(d1.holes@, d1.fragments@, d1.total_data_len as int, data, t),
{
    let first = spec_first(f@);
    let last = spec_last(f@);
    if spec_any_intersect(d0.holes@, first, last) {
        let p = choose|p: int|
            0 <= p <= d0.fragments@.len() && d1.fragments@ == d0.fragments@.insert(p, f);
        lemma_insert_preserves_good(
            d0.holes@,
            d0.fragments@,
            d0.total_data_len as int,
            data,
            t,
            f,
            p,
        );
    } else {
        lemma_insert_preserves_good(
            d0.holes@,
            d0.fragments@,
            d0.total_data_len as int,
            data,
            t,
            f,
            0,
        );
    }
}

/// Sorted genuine fragments covering `[end, t)` assemble to exactly the
/// datagram's data on that range, however they overlap.
pub proof fn lemma_assemble_covered(frags: Seq<Packet>, end: int, data: Seq<u8>, t: int)
    requires
        0 <= end <= t <= data.len(),
        forall|i: int| 0 <= i < frags.len() ==> spec_true_frag((#[trigger] frags[i])@, data, t),
        spec_frags_sorted(frags),
        forall|b: int| end <= b < t ==> spec_covered(frags, b),
    ensures
        spec_assemble(frags, end) == Some(data.subrange(end, t)),
    decreases frags.len(),
{
    if frags.len() == 0 {
        if end < t {
            assert(spec_covered(frags, end));
            let i = choose|i: int|
                0 <= i < frags.len() && spec_frag_covers((#[trigger] frags[i])@, end);
            assert(false);
        }
        assert(data.subrange(end, t) =~= Seq::<u8>::empty());
    } else {
        let f = frags[0]@;
        let rest = frags.skip(1);
        assert(forall|i: int| 0 <= i < rest.len() ==> rest[i] == frags[i + 1]);
        assert(spec_frags_sorted(rest));
        if spec_last(f) < end {
            assert forall|b: int| end <= b < t implies spec_covered(rest, b) by {
                assert(spec_covered(frags, b));
                let i = choose|i: int|
                    0 <= i < frags.len() && spec_frag_covers((#[trigger] frags[i])@, b);
                assert(i >= 1);
                assert(rest[i - 1] == frags[i]);
            };
            lemma_assemble_covered(rest, end, data, t);
        } else if spec_first(f) > end {
            assert(end < t) by {
                assert(spec_last(f) < t);
            };
            assert(spec_covered(frags, end));
            let i = choose|i: int|
                0 <= i < frags.len() && spec_frag_covers((#[trigger] frags[i])@, end);
            assert(spec_first(frags[i]@) >= spec_first(f));
            assert(false);
        } else {
            let end2 = spec_last(f) + 1;
            assert forall|b: int| end2 <= b < t implies spec_covered(rest, b) by {
                assert(spec_covered(frags, b));
                let i = choose|i: int|
                    0 <= i < frags.len() && spec_frag_covers((#[trigger] frags[i])@, b);
                assert(i >= 1);
                assert(rest[i - 1] == frags[i]);
            };
            lemma_assemble_covered(rest, end2, data, t);
            assert(spec_payload(f).subrange(end - spec_first(f), spec_last(f) + 1 - spec_first(f))
                =~= data.subrange(end, end2));
            assert(data.subrange(end, end2) + data.subrange(end2, t) =~= data.subrange(end, t));
        }
    }
}

/// Reassembly inverts fragmentation: once the hole set of a context in the
/// invariant state is empty, the learned length is the datagram's, and
/// completion emits a datagram carrying exactly the original data — in
/// whatever order the fragments arrived, duplicates and overlaps included.
pub proof fn lemma_reassembly_inverts(d: IncompleteDatagram, data: Seq<u8>, t: int)
    requires
        d.wf(),
        spec_good_for(d.holes@, d.fragments@, d.total_data_len as int, data, t),
        d.holes@.len() == 0,
        spec_header_len(d.fragments@[0]@) * 4 + t <= 0xffff,
    ensures
        d.total_data_len == t,
        d.fragments@.len() > 0,
        spec_complete_ok(d),
        spec_assemble(d.fragments@, 0) == Some(data.take(t)),
        spec_payload(spec_complete_bytes(d)) == data.take(t),
        spec_identification(spec_complete_bytes(d)) == spec_identification(d.fragments@[0]@),
        !spec_more_fragments(spec_complete_bytes(d)),
        spec_offset(spec_complete_bytes(d)) == 0,
{
    let frags = d.fragments@;
    assert(!spec_in_hole(d.holes@, t - 1));
    assert(spec_covered(frags, t - 1));
    assert(frags.len() > 0) by {
        let i = choose|i: int|
            0 <= i < frags.len() && spec_frag_covers((#[trigger] frags[i])@, t - 1);
    };
    assert(d.total_data_len == t) by {
        if d.total_data_len != t {
            assert(!spec_covered(frags, t - 1));
        }
    };
    assert forall|b: int| 0 <= b < t implies spec_covered(frags, b) by {
        assert(!spec_in_hole(d.holes@, b));
    };
    lemma_assemble_covered(frags, 0, data, t);
    assert(data.subrange(0, t) == data.take(t));

    let f0 = frags[0]@;
    let cfg = spec_reassembled_cfg(f0, t);
    assert(spec_frag_ok(f0));
    let b0 = f0[0];
    assert(b0 & 0x0f <= 15) by (bit_vector);
    crate::ipv4::builder::lemma_build_cfg_round_trip(cfg, data.take(t));
    let fl = spec_flags(f0);
    assert(fl <= 7) by {
        let b6 = f0[6];
        assert(b6 >> 5 <= 7) by (bit_vector);
    };
    assert((fl & 0xfe) & 0x07 == (fl & 0xfe) && ((fl & 0xfe) & 0b001) != 0b001) by (bit_vector)
        requires fl <= 7;
    // the configured total length is never the 0 sentinel, so it is used
    assert(crate::ipv4::builder::spec_effective_total_len(cfg, t) == cfg.total_len) by {
        assert(cfg.total_len == (spec_header_len(f0) * 4 + t) as u16);
        assert(spec_header_len(f0) >= MIN_HEADER_LEN);
    };
}

/// A fragment the fragmenter emits from a whole datagram is a genuine
/// fragment of that datagram's payload. Together with the insertion
/// invariant and the completion lemma, this closes the circle: feeding the
/// emitted fragments into a fresh context, in any order, reassembles the
/// original payload.
pub proof fn lemma_fragment_is_true_frag(o: Seq<u8>, mtu: int, cursor: int)
    requires
        crate::ipv4::fragmentation::spec_frag_wf(o, mtu),
        spec_wf(o),
        spec_offset(o) == 0,
        !spec_more_fragments(o),
        spec_header_len(o) * 4 <= cursor < o.len(),
        (cursor - spec_header_len(o) * 4) % 8 == 0,
    ensures
        spec_true_frag(
            crate::ipv4::fragmentation::spec_fragment_bytes(o, mtu, cursor),
            spec_payload(o),
            o.len() - spec_header_len(o) * 4,
        ),
{
    let hl4 = spec_header_len(o) * 4;
    let t = o.len() - hl4;
    let plen = crate::ipv4::fragmentation::spec_frag_payload_len(o.len() as int, mtu, cursor);
    let is_last = o.len() - cursor <= mtu - 20;
    let fr = crate::ipv4::fragmentation::spec_fragment_bytes(o, mtu, cursor);
    crate::ipv4::fragmentation::lemma_fragment_fields(o, mtu, cursor);

    let pos = cursor - hl4;
    assert(spec_offset(fr) == (pos / 8) % 0x2000);
    assert(pos / 8 < 0x2000);
    assert(spec_offset(fr) == pos / 8);
    assert(spec_first(fr) == pos) by {
        assert(pos == 8 * (pos / 8) + pos % 8);
    };
    assert(spec_payload(fr).len() == plen);
    assert(spec_last(fr) == pos + plen - 1);

    assert(cursor + plen <= o.len()) by {
        if !is_last {
            assert(crate::ipv4::fragmentation::spec_nfb(mtu) * 8 <= mtu - 20) by (
            nonlinear_arith)
                requires mtu >= 28;
        }
    };
    assert(spec_first(fr) + spec_payload(fr).len() <= 0x10000);

    assert(spec_payload(fr) =~= spec_payload(o).subrange(pos, pos + plen));

    assert(spec_more_fragments(fr) <==> spec_last(fr) < t - 1) by {
        if is_last {
            assert(plen == o.len() - cursor);
            assert(spec_last(fr) == t - 1);
        } else {
            assert(crate::ipv4::fragmentation::spec_nfb(mtu) * 8 <= mtu - 20) by (
            nonlinear_arith)
                requires mtu >= 28;
            assert(cursor + plen < o.len());
        }
    };
}

/// With no intersecting hole, clipping changes nothing.
proof fn lemma_clip_noop(hs: Seq<HoleDescriptor>, first: int, last: int, mf: bool)
    requires
        !spec_any_intersect(hs, first, last),
    ensures
        spec_clip_holes(hs, first, last, mf) == hs,
    decreases hs.len(),
{
    if hs.len() > 0 {
        assert(!(first <= hs[0].last && last >= hs[0].first));
        assert(!spec_any_intersect(hs.skip(1), first, last)) by {
            if spec_any_intersect(hs.skip(1), first, last) {
                let i = choose|i: int|
                    0 <= i < hs.skip(1).len() && first <= hs.skip(1)[i].last && last >= hs.skip(
                        1,
                    )[i].first;
                assert(hs[i + 1] == hs.skip(1)[i]);
            }
        };
        lemma_clip_noop(hs.skip(1), first, last, mf);
        assert(spec_clip_holes(hs, first, last, mf) =~= hs);
    } else {
        assert(spec_clip_holes(hs, first, last, mf) =~= hs);
    }
}

} // verus!
