//! Buffering of sent audio packets for retransmission, and detection of
//! lost packets from the wrapping 16-bit RTP sequence numbers.
use vstd::prelude::*;
use crate::bytes::copy_bytes;

verus! {

/// The largest forward jump in sequence numbers that is still counted as
/// loss; a larger one is taken as a restart of the stream.
pub const MAX_LOSS_GAP: u16 = 100;

/// A packet kept for retransmission.
#[derive(Debug)]
pub struct BufferedPacket {
    /// RTP sequence number
    pub sequence: u16,
    /// RTP timestamp
    pub timestamp: u32,
    /// The packet's bytes
    pub data: Vec<u8>,
}

/// A buffered packet as the contracts see it.
pub struct PacketView {
    pub sequence: u16,
    pub timestamp: u32,
    pub data: Seq<u8>,
}

impl View for BufferedPacket {
    type V = PacketView;

    open spec fn view(&self) -> PacketView {
        PacketView { sequence: self.sequence, timestamp: self.timestamp, data: self.data@ }
    }
}

impl BufferedPacket {
    /// A copy of the packet.
    pub fn duplicate(&self) -> (r: Self)
        ensures
            r@ == self@,
    {
        BufferedPacket {
            sequence: self.sequence,
            timestamp: self.timestamp,
            data: copy_bytes(self.data.as_slice()),
        }
    }
}

/// The sequence number `k` after `start`, wrapping at 2^16.
pub open spec fn seq_add(start: u16, k: int) -> u16 {
    ((start as int + k) % 0x1_0000) as u16
}

/// The index of the first packet with sequence number `seq` at or after
/// `i`.
pub open spec fn find_from(s: Seq<PacketView>, seq: u16, i: int) -> Option<int>
    decreases s.len() - i,
{
    if i < 0 || i >= s.len() {
        None
    } else if s[i].sequence == seq {
        Some(i)
    } else {
        find_from(s, seq, i + 1)
    }
}

/// The first packet with sequence number `seq`.
pub open spec fn find_packet(s: Seq<PacketView>, seq: u16) -> Option<PacketView> {
    match find_from(s, seq, 0) {
        Some(i) => Some(s[i]),
        None => None,
    }
}

/// The packets with the `count` sequence numbers from `start` on
/// (wrapping), in that order, each the first packet with its number;
/// numbers with no packet are skipped.
pub open spec fn range_from(s: Seq<PacketView>, start: u16, count: nat) -> Seq<PacketView>
    decreases count,
{
    if count == 0 {
        Seq::empty()
    } else {
        let rest = range_from(s, start, (count - 1) as nat);
        match find_packet(s, seq_add(start, count - 1)) {
            Some(p) => rest.push(p),
            None => rest,
        }
    }
}

/// The latest `max` elements of `s` (all of them when there are fewer).
pub open spec fn latest<T>(s: Seq<T>, max: nat) -> Seq<T> {
    if s.len() > max {
        s.subrange(s.len() - max, s.len() as int)
    } else {
        s
    }
}

/// After a packet is added to a buffer that holds at least one, the buffer
/// holds at most its capacity and the new packet is the newest one held.
pub proof fn lemma_push_keeps_newest<T>(s: Seq<T>, x: T, capacity: nat)
    requires
        capacity >= 1,
    ensures
        latest(s.push(x), capacity).len() <= capacity,
        latest(s.push(x), capacity).len() >= 1,
        latest(s.push(x), capacity).last() == x,
{
}

/// A buffer of the latest packets sent, oldest first.
#[derive(Debug)]
pub struct PacketBuffer {
    packets: Vec<BufferedPacket>,
    capacity: usize,
}

impl PacketBuffer {
    /// The packets held, oldest first.
    pub closed spec fn spec_packets(&self) -> Seq<PacketView> {
        self.packets@.map_values(|p: BufferedPacket| p@)
    }

    /// How many packets the buffer holds at most.
    pub closed spec fn spec_capacity(&self) -> nat {
        self.capacity as nat
    }

    /// An empty buffer that holds at most `capacity` packets.
    pub fn new(capacity: usize) -> (r: Self)
        ensures
            r.spec_packets() == Seq::<PacketView>::empty(),
            r.spec_capacity() == capacity,
    {
        let r = PacketBuffer { packets: Vec::new(), capacity };
        assert(r.spec_packets() =~= Seq::<PacketView>::empty());
        r
    }

    /// Add a packet; the oldest ones go when there are more than the
    /// capacity.
    pub fn push(&mut self, packet: BufferedPacket)
        ensures
            final(self).spec_packets() == latest(
                old(self).spec_packets().push(packet@),
                old(self).spec_capacity(),
            ),
            final(self).spec_capacity() == old(self).spec_capacity(),
    {
        let ghost pv = packet@;
        self.packets.push(packet);
        let ghost pushed = self.spec_packets();
        proof {
            assert(pushed =~= old(self).spec_packets().push(pv));
        }
        while self.packets.len() > self.capacity
            invariant
                self.capacity == old(self).capacity,
                pushed.len() >= self.spec_packets().len(),
                self.spec_packets() == pushed.subrange(
                    pushed.len() - self.spec_packets().len(),
                    pushed.len() as int,
                ),
                self.spec_packets().len() >= self.capacity || self.spec_packets().len()
                    == pushed.len(),
            decreases self.packets@.len(),
        {
            let ghost before = self.spec_packets();
            self.packets.remove(0);
            proof {
                assert(self.spec_packets() =~= before.subrange(1, before.len() as int));
                assert(self.spec_packets() =~= pushed.subrange(
                    pushed.len() - self.spec_packets().len(),
                    pushed.len() as int,
                ));
            }
        }
        proof {
            if pushed.len() <= self.capacity {
                assert(self.spec_packets() =~= pushed);
            }
        }
    }

    fn find(&self, seq: u16) -> (r: Option<usize>)
        ensures
            r matches Some(i) ==> find_from(self.spec_packets(), seq, 0) == Some(i as int)
                && i < self.packets@.len(),
            r is None ==> find_from(self.spec_packets(), seq, 0) is None,
    {
        let ghost s = self.spec_packets();
        let mut i: usize = 0;
        while i < self.packets.len()
            invariant
                i <= self.packets@.len(),
                s == self.spec_packets(),
                s.len() == self.packets@.len(),
                find_from(s, seq, 0) == find_from(s, seq, i as int),
            decreases self.packets@.len() - i,
        {
            if self.packets[i].sequence == seq {
                return Some(i);
            }
            i = i + 1;
        }
        None
    }

    /// The first packet held with sequence number `seq`.
    pub fn get(&self, seq: u16) -> (r: Option<&BufferedPacket>)
        ensures
            r matches Some(p) ==> find_packet(self.spec_packets(), seq) == Some(p@),
            r is None ==> find_packet(self.spec_packets(), seq) is None,
    {
        match self.find(seq) {
            Some(i) => {
                assert(self.spec_packets()[i as int] == self.packets@[i as int]@);
                Some(&self.packets[i])
            },
            None => None,
        }
    }

    /// Copies of the packets with the `count` sequence numbers from
    /// `start` on (wrapping), in that order, skipping numbers that are not
    /// held.
    pub fn get_range(&self, start: u16, count: u16) -> (r: Vec<BufferedPacket>)
        ensures
            r@.map_values(|p: BufferedPacket| p@) == range_from(
                self.spec_packets(),
                start,
                count as nat,
            ),
    {
        let mut out: Vec<BufferedPacket> = Vec::new();
        let mut k: u16 = 0;
        assert(out@.map_values(|p: BufferedPacket| p@) =~= Seq::<PacketView>::empty());
        while k < count
            invariant
                k <= count,
                out@.map_values(|p: BufferedPacket| p@) == range_from(
                    self.spec_packets(),
                    start,
                    k as nat,
                ),
            decreases count - k,
        {
            let seq = start.wrapping_add(k);
            proof {
                assert(seq == seq_add(start, k as int));
            }
            let ghost before = out@.map_values(|p: BufferedPacket| p@);
            match self.get(seq) {
                Some(p) => {
                    let copy = p.duplicate();
                    out.push(copy);
                    proof {
                        assert(out@.map_values(|p: BufferedPacket| p@) =~= before.push(p@));
                    }
                },
                None => {},
            }
            k = k + 1;
        }
        out
    }

    /// Drop every packet.
    pub fn clear(&mut self)
        ensures
            final(self).spec_packets() == Seq::<PacketView>::empty(),
            final(self).spec_capacity() == old(self).spec_capacity(),
    {
        self.packets = Vec::new();
        assert(self.spec_packets() =~= Seq::<PacketView>::empty());
    }

    /// Whether no packet is held.
    pub fn is_empty(&self) -> (r: bool)
        ensures
            r == (self.spec_packets().len() == 0),
    {
        self.packets.len() == 0
    }

    /// How many packets are held.
    pub fn len(&self) -> (r: usize)
        ensures
            r == self.spec_packets().len(),
    {
        self.packets.len()
    }

    /// The sequence numbers of the oldest and the newest packet held.
    pub fn sequence_range(&self) -> (r: Option<(u16, u16)>)
        ensures
            self.spec_packets().len() == 0 ==> r is None,
            self.spec_packets().len() > 0 ==> r == Some(
                (self.spec_packets()[0].sequence, self.spec_packets().last().sequence),
            ),
    {
        let n = self.packets.len();
        if n == 0 {
            None
        } else {
            Some((self.packets[0].sequence, self.packets[n - 1].sequence))
        }
    }
}

/// How far `seq` is ahead of `expected` on the wrapping 16-bit counter, as
/// a signed 16-bit number (negative when it is behind).
pub open spec fn seq_distance(seq: u16, expected: u16) -> int {
    let d = (seq as int - expected as int + 0x1_0000) % 0x1_0000;
    if d >= 0x8000 {
        d - 0x1_0000
    } else {
        d
    }
}

/// The `n` sequence numbers from `start` on (wrapping).
pub open spec fn numbers_from(start: u16, n: nat) -> Seq<u16> {
    Seq::new(n, |k: int| seq_add(start, k))
}

/// Detection of lost packets from the sequence numbers received.
#[derive(Debug, Clone, Copy)]
pub struct PacketLossDetector {
    expected: Option<u16>,
}

impl PacketLossDetector {
    /// The sequence number expected next, once one was received.
    pub closed spec fn spec_expected(&self) -> Option<u16> {
        self.expected
    }

    /// A detector that has seen nothing yet.
    pub fn new() -> (r: Self)
        ensures
            r.spec_expected() is None,
    {
        PacketLossDetector { expected: None }
    }

    /// Note the arrival of `seq` and return the sequence numbers found
    /// missing. The first packet, the expected one, and a jump of
    /// `MAX_LOSS_GAP` or more (a restart) report nothing and expect the
    /// number after `seq`; a smaller jump reports the numbers skipped;
    /// a packet from behind (late or repeated) reports nothing and changes
    /// nothing.
    pub fn process(&mut self, seq: u16) -> (r: Vec<u16>)
        ensures
            ({
                let next = Some(seq_add(seq, 1));
                match old(self).spec_expected() {
                    None => r@ == Seq::<u16>::empty() && final(self).spec_expected() == next,
                    Some(e) => {
                        let d = seq_distance(seq, e);
                        &&& d < 0 ==> r@ == Seq::<u16>::empty() && final(self).spec_expected()
                            == old(self).spec_expected()
                        &&& (d == 0 || d >= MAX_LOSS_GAP) ==> r@ == Seq::<u16>::empty()
                            && final(self).spec_expected() == next
                        &&& 0 < d < MAX_LOSS_GAP ==> r@ == numbers_from(e, d as nat)
                            && final(self).spec_expected() == next
                    },
                }
            }),
    {
        let mut missing: Vec<u16> = Vec::new();
        let next = seq.wrapping_add(1);
        match self.expected {
            None => {
                self.expected = Some(next);
            },
            Some(e) => {
                let raw: u16 = seq.wrapping_sub(e);
                proof {
                    assert(raw as int == (seq as int - e as int + 0x1_0000) % 0x1_0000);
                }
                if raw < 0x8000 {
                    if raw > 0 && raw < MAX_LOSS_GAP {
                        let mut k: u16 = 0;
                        while k < raw
                            invariant
                                k <= raw,
                                raw < MAX_LOSS_GAP,
                                missing@ == numbers_from(e, k as nat),
                            decreases raw - k,
                        {
                            missing.push(e.wrapping_add(k));
                            proof {
                                assert(missing@ =~= numbers_from(e, (k + 1) as nat));
                            }
                            k = k + 1;
                        }
                    }
                    self.expected = Some(next);
                }
            },
        }
        missing
    }
}

} // verus!
