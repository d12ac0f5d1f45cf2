//! Packetized frames: the packets of one frame back to back in one buffer, so
//! that a retired frame's buffer can be recycled whole.

use vstd::prelude::*;
use vstd::slice::slice_subrange;

verus! {

/// All packets of a frame, back to back.
pub open spec fn joined(packets: Seq<Seq<u8>>) -> Seq<u8>
    decreases packets.len(),
{
    if packets.len() == 0 {
        Seq::empty()
    } else {
        joined(packets.drop_last()) + packets.last()
    }
}

/// Total wire bytes of some packets.
pub open spec fn wire_bytes(packets: Seq<Seq<u8>>) -> nat
    decreases packets.len(),
{
    if packets.len() == 0 {
        0
    } else {
        wire_bytes(packets.drop_last()) + packets.last().len()
    }
}

/// Joining packets loses no byte and adds none.
pub proof fn law_joined_has_every_byte(packets: Seq<Seq<u8>>)
    ensures
        joined(packets).len() == wire_bytes(packets),
    decreases packets.len(),
{
    if packets.len() > 0 {
        law_joined_has_every_byte(packets.drop_last());
    }
}

/// What goes along with a frame's payload.
#[derive(Clone, Copy, PartialEq, Eq, Structural, Debug)]
pub struct OutboundFrame {
    pub frame_id: u64,
    /// The frame this one is decoded from; its own id for a key frame.
    pub referenced_frame_id: u64,
    pub rtp_timestamp: u32,
    pub is_key_frame: bool,
    pub playout_delay_ms: Option<u16>,
}

/// The packets of one frame.
pub struct PacketizedFrame {
    buffer: Vec<u8>,
    /// Where each packet ends in `buffer`; it starts where the one before ends.
    ends: Vec<usize>,
}

/// Where packet `i` starts, given where each packet ends.
spec fn start_of(ends: Seq<usize>, i: int) -> int {
    if i == 0 {
        0
    } else {
        ends[i - 1] as int
    }
}

impl View for PacketizedFrame {
    type V = Seq<Seq<u8>>;

    closed spec fn view(&self) -> Seq<Seq<u8>> {
        Seq::new(
            self.ends@.len(),
            |i: int| self.buffer@.subrange(start_of(self.ends@, i), self.ends@[i] as int),
        )
    }
}

impl PacketizedFrame {
    /// The ends are in order, and the packets fill the buffer.
    pub closed spec fn wf(&self) -> bool {
        &&& forall|i: int, j: int|
            0 <= i <= j < self.ends@.len() ==> self.ends@[i] <= self.ends@[j]
        &&& forall|i: int| 0 <= i < self.ends@.len() ==> self.ends@[i] <= self.buffer@.len()
        &&& self.buffer@ == joined(self@)
    }

    /// A frame with no packets yet, which reuses `buffer`'s allocation.
    pub fn new(buffer: Vec<u8>) -> (frame: PacketizedFrame)
        ensures
            frame.wf(),
            frame@ == Seq::<Seq<u8>>::empty(),
    {
        let mut buffer = buffer;
        buffer.clear();
        let frame = PacketizedFrame { buffer, ends: Vec::new() };
        assert(frame@ =~= Seq::<Seq<u8>>::empty());
        frame
    }

    /// Adds the next packet of the frame.
    pub fn push_packet(&mut self, packet: &[u8])
        requires
            old(self).wf(),
        ensures
            final(self).wf(),
            final(self)@ == old(self)@.push(packet@),
    {
        let ghost before = *self;
        self.buffer.extend_from_slice(packet);
        self.ends.push(self.buffer.len());
        proof {
            assert(self.buffer@ =~= before.buffer@ + packet@);
            let n = before.ends@.len() as int;
            assert(start_of(self.ends@, n) <= before.buffer@.len());
            if n > 0 {
                assert(before.ends@[n - 1] <= before.buffer@.len());
            }
            lemma_last_end(before);
            assert forall|i: int| 0 <= i < n implies self@[i] =~= before@[i] by {
                assert(before.ends@[i] <= before.buffer@.len());
                if i > 0 {
                    assert(before.ends@[i - 1] <= before.ends@[i]);
                }
            }
            assert(self@[n] =~= packet@);
            assert(self@ =~= before@.push(packet@));
            assert(self@.drop_last() =~= before@);
        }
    }

    /// How many packets the frame has.
    pub fn packet_count(&self) -> (count: usize)
        ensures
            count == self@.len(),
    {
        self.ends.len()
    }

    /// The packet with index `index`.
    pub fn packet_at(&self, index: usize) -> (packet: &[u8])
        requires
            self.wf(),
            index < self@.len(),
        ensures
            packet@ == self@[index as int],
    {
        let start: usize = if index == 0 {
            0
        } else {
            self.ends[index - 1]
        };
        slice_subrange(self.buffer.as_slice(), start, self.ends[index])
    }

    /// The packet with id `id`, or `None` for an id the frame does not have.
    pub fn packet(&self, id: u16) -> (packet: Option<&[u8]>)
        requires
            self.wf(),
        ensures
            packet is Some <==> id < self@.len(),
            packet matches Some(bytes) ==> bytes@ == self@[id as int],
    {
        if (id as usize) < self.packet_count() {
            Some(self.packet_at(id as usize))
        } else {
            None
        }
    }

    /// Gives up the frame for its buffer.
    pub fn into_buffer(self) -> (buffer: Vec<u8>)
        requires
            self.wf(),
        ensures
            buffer@ == joined(self@),
    {
        self.buffer
    }
}

/// The last packet ends where the buffer does.
proof fn lemma_last_end(frame: PacketizedFrame)
    requires
        frame.wf(),
    ensures
        start_of(frame.ends@, frame.ends@.len() as int) == frame.buffer@.len(),
{
    law_joined_has_every_byte(frame@);
    lemma_bytes_up_to(frame, frame.ends@.len() as int);
    assert(frame@.take(frame.ends@.len() as int) =~= frame@);
}

/// The first `n` packets take the bytes up to where packet `n` starts.
proof fn lemma_bytes_up_to(frame: PacketizedFrame, n: int)
    requires
        frame.wf(),
        0 <= n <= frame.ends@.len(),
    ensures
        wire_bytes(frame@.take(n)) == start_of(frame.ends@, n),
    decreases n,
{
    if n > 0 {
        lemma_bytes_up_to(frame, n - 1);
        assert(frame@.take(n).drop_last() =~= frame@.take(n - 1));
        if n > 1 {
            assert(frame.ends@[n - 2] <= frame.ends@[n - 1]);
        }
    }
}

/// Total wire bytes of a packetized frame, counted when the receiver confirms it.
pub fn frame_bytes(packets: &PacketizedFrame) -> (bytes: u64)
    requires
        packets.wf(),
    ensures
        bytes == wire_bytes(packets@),
{
    proof {
        law_joined_has_every_byte(packets@);
    }
    packets.buffer.len() as u64
}

/// The packets of a frame lie in its buffer one after the other, and every byte
/// of them counts once.
pub proof fn law_frames_are_their_packets_in_a_row(packets: Seq<Seq<u8>>)
    ensures
        joined(packets) == packets.flatten(),
        wire_bytes(packets) == packets.flatten().len(),
    decreases packets.len(),
{
    packets.lemma_flatten_and_flatten_alt_are_equivalent();
    if packets.len() > 0 {
        law_frames_are_their_packets_in_a_row(packets.drop_last());
        packets.drop_last().lemma_flatten_and_flatten_alt_are_equivalent();
    }
}

/// What a frame costs on the wire, and what it leaves in its buffer, is all of
/// its packets.
pub proof fn law_a_frame_costs_its_packets(frame: PacketizedFrame, bytes: u64, buffer: Vec<u8>)
    requires
        call_ensures(frame_bytes, (&frame,), bytes),
        call_ensures(PacketizedFrame::into_buffer, (frame,), buffer),
    ensures
        bytes == frame@.flatten().len(),
        buffer@ == frame@.flatten(),
{
    law_frames_are_their_packets_in_a_row(frame@);
}

/// A packet that is added is the last of the frame, is found under its place,
/// and leaves the others where they are.
pub proof fn law_packets_keep_their_places(
    frame: &mut PacketizedFrame,
    packet: &[u8],
    id: u16,
    found: Option<&[u8]>,
)
    requires
        call_ensures(PacketizedFrame::push_packet, (frame, packet), ()),
        call_ensures(PacketizedFrame::packet, (&*final(frame), id), found),
    ensures
        final(frame)@.len() == old(frame)@.len() + 1,
        id < old(frame)@.len() ==> found is Some && found->Some_0@ == old(frame)@[id as int],
        id == old(frame)@.len() ==> found is Some && found->Some_0@ == packet@,
        id > old(frame)@.len() ==> found is None,
{
}

/// A frame's packets are counted and read as they are.
pub proof fn law_packets_are_read_as_they_are(
    frame: PacketizedFrame,
    count: usize,
    index: usize,
    packet: &[u8],
)
    requires
        frame.wf(),
        index < frame@.len(),
        call_ensures(PacketizedFrame::packet_count, (&frame,), count),
        call_ensures(PacketizedFrame::packet_at, (&frame, index), packet),
    ensures
        count == frame@.len(),
        packet@ == frame@[index as int],
{
}

} // verus!
