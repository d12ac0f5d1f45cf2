//! One outgoing media stream: frame numbering, the retransmit history, the
//! counters of the Sender Reports and the answers to NACKs.

use std::collections::VecDeque;

use vstd::prelude::*;

use crate::bandwidth::{link_after, point, BandwidthEstimator, EstimatorView, LinkEvent};
use crate::crypto::{aes_ctr_keystream, encrypt_frame, encrypted};
use crate::frames::{
    frame_bytes, joined, law_frames_are_their_packets_in_a_row, wire_bytes, OutboundFrame,
    PacketizedFrame,
};
use crate::rtcp::{
    after_compound, build_sender_report, is_message, lemma_report_spells, parse_at, sender_report,
    spells, EventsView, Nack, ReceiverEvents, ALL_PACKETS_LOST,
};
use crate::time::{elapsed, Duration, Instant};

verus! {

/// How many sent frames are kept for retransmission.
pub const MAX_HISTORY_FRAMES: usize = 120;

/// How often a stream sends a Sender Report, in milliseconds.
pub const SENDER_REPORT_INTERVAL_MILLIS: u64 = 500;

#[derive(Clone, Copy, PartialEq, Eq, Structural, Debug)]
pub enum StreamKind {
    Audio,
    Video,
}

/// One encoded buffer on its way from an encoder to the network.
pub struct EncodedChunk {
    pub kind: StreamKind,
    pub is_key_frame: bool,
    pub rtp_timestamp: u32,
    /// NTP timestamp taken when the buffer left the encoder; paired with
    /// `rtp_timestamp` in Sender Reports so the receiver can sync A/V.
    pub ntp_timestamp: u64,
    /// The encoded bytes.
    pub data: Vec<u8>,
}

/// What sets a stream apart on the wire.
#[derive(Clone, Copy)]
pub struct StreamConfig {
    pub kind: StreamKind,
    pub ssrc: u32,
    pub payload_type: u8,
    pub aes_key: [u8; 16],
    pub aes_iv_mask: [u8; 16],
}

/// A frame as it was sent, kept until the receiver confirms it.
struct SentFrame {
    frame_id: u64,
    packets: PacketizedFrame,
}

/// The id and the packets of a sent frame.
pub struct SentView {
    pub frame_id: u64,
    pub packets: Seq<Seq<u8>>,
}

impl View for SentFrame {
    type V = SentView;

    closed spec fn view(&self) -> SentView {
        SentView { frame_id: self.frame_id, packets: self.packets@ }
    }
}

/// The state of a stream.
pub struct StreamView {
    pub config: StreamConfig,
    pub next_frame_id: u64,
    /// The last frame the receiver has fully received; -1 until it acks anything.
    pub checkpoint: i64,
    /// The sent frames not yet confirmed, oldest first.
    pub history: Seq<SentView>,
    /// What the recycled packet buffers still hold.
    pub spare: Seq<Seq<u8>>,
    pub packet_count: u32,
    pub octet_count: u32,
    pub last_report: Option<int>,
    /// The (rtp, ntp) pair of the latest frame.
    pub last_timestamps: Option<(u32, u64)>,
}

/// A frame id as feedback numbers it: ids past the signed range all read as its end.
pub open spec fn signed_id(frame_id: u64) -> i64 {
    if frame_id <= i64::MAX {
        frame_id as i64
    } else {
        i64::MAX
    }
}

fn to_signed_id(frame_id: u64) -> (id: i64)
    ensures
        id == signed_id(frame_id),
{
    if frame_id <= i64::MAX as u64 {
        frame_id as i64
    } else {
        i64::MAX
    }
}

/// `value` counted up by `by`, around the end of the 32-bit numbers.
pub open spec fn counted_up(value: u32, by: nat) -> u32 {
    ((value + by) % 0x1_0000_0000) as u32
}

/// The length of a packet as the octet counter takes it.
pub open spec fn octets(packet: Seq<u8>) -> nat {
    if packet.len() <= u32::MAX {
        packet.len()
    } else {
        u32::MAX as nat
    }
}

/// What a frame's packets add to the octet counter.
pub open spec fn octet_sum(packets: Seq<Seq<u8>>) -> nat
    decreases packets.len(),
{
    if packets.len() == 0 {
        0
    } else {
        octet_sum(packets.drop_last()) + octets(packets.last())
    }
}

/// How many packets of a frame did not go out.
pub open spec fn unsent(sent: Seq<bool>) -> nat
    decreases sent.len(),
{
    if sent.len() == 0 {
        0
    } else {
        unsent(sent.drop_last()) + if sent.last() {
            0nat
        } else {
            1nat
        }
    }
}

impl StreamView {
    /// A stream that has sent nothing.
    pub open spec fn fresh(config: StreamConfig) -> StreamView {
        StreamView {
            config,
            next_frame_id: 0,
            checkpoint: -1i64,
            history: Seq::empty(),
            spare: Seq::empty(),
            packet_count: 0,
            octet_count: 0,
            last_report: None,
            last_timestamps: None,
        }
    }

    /// The stream with its oldest frame dropped and that frame's buffer recycled.
    pub open spec fn evicted(self) -> StreamView {
        if self.history.len() == 0 {
            self
        } else {
            StreamView {
                history: self.history.drop_first(),
                spare: self.spare.push(joined(self.history[0].packets)),
                ..self
            }
        }
    }

    /// The stream with room in its history for one more frame.
    pub open spec fn with_room(self) -> StreamView {
        if self.history.len() >= MAX_HISTORY_FRAMES {
            self.evicted()
        } else {
            self
        }
    }

    /// The buffer that the next frame gets: the one recycled last, if any.
    pub open spec fn next_buffer(self) -> Seq<u8> {
        if self.with_room().spare.len() > 0 {
            self.with_room().spare.last()
        } else {
            Seq::empty()
        }
    }

    /// The stream once it has given out an id and a buffer for a frame, and has
    /// made room for it.
    pub open spec fn begun(self) -> StreamView {
        let room = self.with_room();
        StreamView {
            next_frame_id: if self.next_frame_id < u64::MAX {
                (self.next_frame_id + 1) as u64
            } else {
                0
            },
            spare: if room.spare.len() > 0 {
                room.spare.drop_last()
            } else {
                room.spare
            },
            ..room
        }
    }

    /// The header of the next frame.
    pub open spec fn next_frame(
        self,
        is_key_frame: bool,
        rtp_timestamp: u32,
        playout_delay_ms: u16,
    ) -> OutboundFrame {
        OutboundFrame {
            frame_id: self.next_frame_id,
            referenced_frame_id: if is_key_frame || self.next_frame_id == 0 {
                self.next_frame_id
            } else {
                (self.next_frame_id - 1) as u64
            },
            rtp_timestamp,
            is_key_frame,
            playout_delay_ms: if self.next_frame_id == 0 {
                Some(playout_delay_ms)
            } else {
                None
            },
        }
    }

    /// The stream with a sent frame counted and at the end of its history,
    /// whatever the length of that.
    pub open spec fn counted(
        self,
        frame_id: u64,
        packets: Seq<Seq<u8>>,
        timestamps: (u32, u64),
    ) -> StreamView {
        StreamView {
            history: self.history.push(SentView { frame_id, packets }),
            packet_count: counted_up(self.packet_count, packets.len()),
            octet_count: counted_up(self.octet_count, octet_sum(packets)),
            last_timestamps: Some(timestamps),
            ..self
        }
    }

    /// The stream once a frame has been sent.
    pub open spec fn sent(
        self,
        frame_id: u64,
        packets: Seq<Seq<u8>>,
        timestamps: (u32, u64),
    ) -> StreamView {
        let counted = self.counted(frame_id, packets, timestamps);
        if counted.history.len() > MAX_HISTORY_FRAMES {
            counted.evicted()
        } else {
            counted
        }
    }

    /// The stream with a confirmed frame moved up to, never back.
    pub open spec fn checkpointed(self, checkpoint: i64) -> StreamView {
        StreamView {
            checkpoint: if checkpoint > self.checkpoint {
                checkpoint
            } else {
                self.checkpoint
            },
            ..self
        }
    }

    /// Whether the receiver has confirmed the oldest frame.
    pub open spec fn front_confirmed(self) -> bool {
        self.history.len() > 0 && signed_id(self.history[0].frame_id) <= self.checkpoint
    }

    /// The stream with every frame retired that the receiver confirmed: the
    /// oldest ones, up to the first that is past the checkpoint.
    pub open spec fn retired(self) -> StreamView
        decreases self.history.len(),
    {
        if self.front_confirmed() {
            self.evicted().retired()
        } else {
            self
        }
    }

    /// The link estimate once those frames are retired: each is the receiver
    /// confirming its bytes.
    pub open spec fn confirmed(self, link: EstimatorView, now: int) -> EstimatorView
        decreases self.history.len(),
    {
        if self.front_confirmed() {
            self.evicted().confirmed(
                EstimatorView {
                    confirmed: link.confirmed.accumulated(
                        wire_bytes(self.history[0].packets) as u64,
                        link.sent_at(now),
                    ),
                    ..link
                },
                now,
            )
        } else {
            link
        }
    }

    /// The stream after a checkpoint arrived, or not.
    pub open spec fn acknowledged(self, checkpoint: Option<i64>) -> StreamView {
        match checkpoint {
            Some(frame) => self.checkpointed(frame).retired(),
            None => self,
        }
    }

    /// The link estimate after a checkpoint arrived, or not.
    pub open spec fn link_acknowledged(
        self,
        checkpoint: Option<i64>,
        link: EstimatorView,
        now: int,
    ) -> EstimatorView {
        match checkpoint {
            Some(frame) => self.checkpointed(frame).confirmed(link, now),
            None => link,
        }
    }

    /// What a NACK has resent.
    pub open spec fn resent(self, nack: Nack) -> Seq<Seq<u8>> {
        match frame_in(self.history, nack.frame_id) {
            Some(frame) => if nack.packet_id == ALL_PACKETS_LOST {
                frame.packets
            } else if nack.packet_id < frame.packets.len() {
                seq![frame.packets[nack.packet_id as int]]
            } else {
                Seq::empty()
            },
            None => Seq::empty(),
        }
    }

    /// What several NACKs have resent, in their order.
    pub open spec fn all_resent(self, nacks: Seq<Nack>) -> Seq<Seq<u8>>
        decreases nacks.len(),
    {
        if nacks.len() == 0 {
            Seq::empty()
        } else {
            self.all_resent(nacks.drop_last()) + self.resent(nacks.last())
        }
    }

    /// Whether a Sender Report is to go out: half a second after the last one,
    /// once there is something to report.
    pub open spec fn report_due(self, now: int) -> bool {
        &&& self.last_timestamps is Some
        &&& match self.last_report {
            Some(at) => elapsed(at, now) >= SENDER_REPORT_INTERVAL_MILLIS * 1_000_000,
            None => true,
        }
    }

    /// The Sender Report of a stream that has sent a frame.
    pub open spec fn report(self) -> Seq<u8> {
        let (rtp, ntp) = self.last_timestamps->Some_0;
        sender_report(self.config.ssrc, ntp, rtp, self.packet_count, self.octet_count)
    }

    /// What a compound packet says to this stream.
    pub open spec fn heard(self, packet: Seq<u8>, ntp: u64) -> EventsView {
        after_compound(packet, self.config.ssrc, self.checkpoint, ntp, EventsView::none())
    }

    /// The stream after a compound packet.
    pub open spec fn after_packet(self, packet: Seq<u8>, ntp: u64) -> StreamView {
        self.acknowledged(self.heard(packet, ntp).checkpoint)
    }

    /// The link estimate after a compound packet.
    pub open spec fn link_after_packet(
        self,
        packet: Seq<u8>,
        ntp: u64,
        link: EstimatorView,
        now: int,
    ) -> EstimatorView {
        self.link_acknowledged(self.heard(packet, ntp).checkpoint, link, now)
    }
}

/// The oldest frame with an id in a history.
pub open spec fn frame_in(history: Seq<SentView>, id: i64) -> Option<SentView>
    decreases history.len(),
{
    if history.len() == 0 {
        None
    } else if signed_id(history[0].frame_id) == id {
        Some(history[0])
    } else {
        frame_in(history.drop_first(), id)
    }
}

/// The contents of some packets.
pub open spec fn contents(packets: Seq<Vec<u8>>) -> Seq<Seq<u8>> {
    Seq::new(packets.len(), |i: int| packets[i]@)
}

/// The sender's side of one stream.
pub struct Stream {
    config: StreamConfig,
    next_frame_id: u64,
    checkpoint: i64,
    history: VecDeque<SentFrame>,
    /// Packet buffers recycled from evicted history frames. Sends and
    /// evictions pair up one-to-one in steady state, so `history` and
    /// `spare_buffers` never hold more buffers than the history cap and no
    /// separate bound is needed. After warm-up, packetizing only grows a
    /// recycled buffer when a frame exceeds its capacity.
    spare_buffers: Vec<Vec<u8>>,
    packet_count: u32,
    octet_count: u32,
    last_report: Option<Instant>,
    last_timestamps: Option<(u32, u64)>,
}

impl View for Stream {
    type V = StreamView;

    closed spec fn view(&self) -> StreamView {
        StreamView {
            config: self.config,
            next_frame_id: self.next_frame_id,
            checkpoint: self.checkpoint,
            history: Seq::new(self.history@.len(), |i: int| self.history@[i]@),
            spare: contents(self.spare_buffers@),
            packet_count: self.packet_count,
            octet_count: self.octet_count,
            last_report: point(self.last_report),
            last_timestamps: self.last_timestamps,
        }
    }
}

/// What a compound packet asks of a stream.
pub struct StreamResponse {
    /// The packets to send again, in order.
    pub packets: Vec<Vec<u8>>,
    /// The video encoder has to produce a key frame.
    pub request_keyframe: bool,
    /// The last frame the receiver says it has in full.
    pub acknowledged: Option<i64>,
}

impl Stream {
    /// The frames of the history are whole, and there are no more than may be kept.
    pub closed spec fn wf(&self) -> bool {
        &&& forall|i: int|
            0 <= i < self.history@.len() ==> (#[trigger] self.history@[i]).packets.wf()
        &&& self.history@.len() <= MAX_HISTORY_FRAMES
    }

    pub fn new(config: &StreamConfig) -> (stream: Stream)
        ensures
            stream.wf(),
            stream@ == StreamView::fresh(*config),
    {
        let stream = Stream {
            config: *config,
            next_frame_id: 0,
            checkpoint: -1,
            history: VecDeque::with_capacity(MAX_HISTORY_FRAMES + 1),
            spare_buffers: Vec::new(),
            packet_count: 0,
            octet_count: 0,
            last_report: None,
            last_timestamps: None,
        };
        assert(stream@.history =~= Seq::empty());
        assert(stream@.spare =~= Seq::empty());
        stream
    }

    /// Which kind of media the stream carries.
    pub fn kind(&self) -> (kind: StreamKind)
        ensures
            kind == self@.config.kind,
    {
        self.config.kind
    }

    /// How many octets and packets the stream has sent, around the end of the
    /// 32-bit numbers.
    pub fn counters(&self) -> (counters: (u32, u32))
        ensures
            counters == (self@.octet_count, self@.packet_count),
    {
        (self.octet_count, self.packet_count)
    }

    /// Drops the oldest frame from the retransmit history, recycling its
    /// packet buffer for a future frame.
    fn evict_oldest(&mut self)
        requires
            forall|i: int|
                0 <= i < old(self).history@.len() ==> (#[trigger] old(self).history@[i]).packets.wf(),
        ensures
            final(self)@ == old(self)@.evicted(),
            forall|i: int|
                0 <= i < final(self).history@.len() ==> (#[trigger] final(self).history@[i]).packets.wf(),
            old(self).history@.len() > 0 ==> final(self).history@.len() == old(self).history@.len()
                - 1,
            old(self).history@.len() == 0 ==> final(self).history@.len() == 0,
    {
        let ghost before = *self;
        if let Some(frame) = self.history.pop_front() {
            self.spare_buffers.push(frame.packets.into_buffer());
            proof {
                assert(before.history@[0] == frame);
                assert(self@.history =~= before@.history.drop_first());
                assert(self@.spare =~= before@.spare.push(joined(before@.history[0].packets)));
            }
        } else {
            assert(self.history@.len() == 0);
        }
    }

    /// Gives out the header of the next frame and a buffer to put its packets
    /// in. A full history gives up its oldest frame here, so that the new frame
    /// takes over that one's buffer. The fixed target playout delay goes along
    /// with the first frame.
    pub fn begin_frame(&mut self, chunk: &EncodedChunk, playout_delay_ms: u16) -> (next: (
        OutboundFrame,
        Vec<u8>,
    ))
        requires
            old(self).wf(),
        ensures
            final(self).wf(),
            final(self)@ == old(self)@.begun(),
            next.0 == old(self)@.next_frame(
                chunk.is_key_frame,
                chunk.rtp_timestamp,
                playout_delay_ms,
            ),
            next.1@ == old(self)@.next_buffer(),
    {
        if self.history.len() >= MAX_HISTORY_FRAMES {
            self.evict_oldest();
        }
        let ghost before = *self;
        assert(before@ == old(self)@.with_room());
        let frame_id: u64 = self.next_frame_id;
        self.next_frame_id = if frame_id < u64::MAX {
            frame_id + 1
        } else {
            0
        };
        let frame = OutboundFrame {
            frame_id,
            referenced_frame_id: if chunk.is_key_frame || frame_id == 0 {
                frame_id
            } else {
                frame_id - 1
            },
            rtp_timestamp: chunk.rtp_timestamp,
            is_key_frame: chunk.is_key_frame,
            playout_delay_ms: if frame_id == 0 {
                Some(playout_delay_ms)
            } else {
                None
            },
        };
        let buffer = match self.spare_buffers.pop() {
            Some(buffer) => buffer,
            None => Vec::new(),
        };
        proof {
            assert(self@.history =~= before@.history);
            if before@.spare.len() > 0 {
                assert(self@.spare =~= before@.spare.drop_last());
            } else {
                assert(self@.spare =~= before@.spare);
            }
        }
        (frame, buffer)
    }

    /// Encrypts a frame's payload in place with the stream's key, counting
    /// from the given block.
    pub fn encrypt(&self, counter: &[u8; 16], payload: &mut Vec<u8>)
        ensures
            final(payload)@ == encrypted(self@.config.aes_key@, counter@, old(payload)@),
    {
        encrypt_frame(&self.config.aes_key, counter, payload);
    }

    /// Takes note of a frame whose packets were handed to the network: `sent`
    /// says of each whether it went. Returns how many did not.
    pub fn finish_frame(
        &mut self,
        chunk: &EncodedChunk,
        frame_id: u64,
        packets: PacketizedFrame,
        sent: &Vec<bool>,
    ) -> (dropped: u32)
        requires
            old(self).wf(),
            packets.wf(),
            sent@.len() == packets@.len(),
        ensures
            final(self).wf(),
            final(self)@ == old(self)@.sent(
                frame_id,
                packets@,
                (chunk.rtp_timestamp, chunk.ntp_timestamp),
            ),
            dropped == if unsent(sent@) <= u32::MAX {
                unsent(sent@)
            } else {
                u32::MAX as nat
            },
    {
        let ghost before = *self;
        let mut dropped: u32 = 0;
        let mut at: usize = 0;
        let count: usize = packets.packet_count();
        let mut packet_count: u32 = self.packet_count;
        let mut octet_count: u32 = self.octet_count;
        assert(packets@.take(0) =~= Seq::empty());
        assert(sent@.take(0) =~= Seq::empty());
        while at < count
            invariant
                packets.wf(),
                count == packets@.len(),
                sent@.len() == packets@.len(),
                at <= count,
                packet_count == counted_up(before.packet_count, at as nat),
                octet_count == counted_up(
                    before.octet_count,
                    octet_sum(packets@.take(at as int)),
                ),
                dropped == if unsent(sent@.take(at as int)) <= u32::MAX {
                    unsent(sent@.take(at as int))
                } else {
                    u32::MAX as nat
                },
            decreases count - at,
        {
            let size: usize = packets.packet_at(at).len();
            let octets: u32 = if size <= u32::MAX as usize {
                size as u32
            } else {
                u32::MAX
            };
            packet_count = packet_count.wrapping_add(1);
            octet_count = octet_count.wrapping_add(octets);
            if !sent[at] && dropped < u32::MAX {
                dropped = dropped + 1;
            }
            proof {
                assert(packets@.take(at + 1).drop_last() =~= packets@.take(at as int));
                assert(sent@.take(at + 1).drop_last() =~= sent@.take(at as int));
            }
            at = at + 1;
        }
        proof {
            assert(packets@.take(count as int) =~= packets@);
            assert(sent@.take(count as int) =~= sent@);
        }
        self.packet_count = packet_count;
        self.octet_count = octet_count;
        self.last_timestamps = Some((chunk.rtp_timestamp, chunk.ntp_timestamp));
        let ghost frame = SentView { frame_id, packets: packets@ };
        self.history.push_back(SentFrame { frame_id, packets });
        proof {
            assert(self@.history =~= before@.history.push(frame));
            assert(self@.spare =~= before@.spare);
        }
        if self.history.len() > MAX_HISTORY_FRAMES {
            self.evict_oldest();
        }
        dropped
    }

    /// Retires every frame that the receiver has confirmed, up to `checkpoint`,
    /// and counts their bytes towards the link estimate.
    fn acknowledge(&mut self, checkpoint: i64, estimator: &mut BandwidthEstimator, now: Instant)
        requires
            old(self).wf(),
            old(estimator).wf(),
        ensures
            final(self).wf(),
            final(estimator).wf(),
            final(self)@ == old(self)@.checkpointed(checkpoint).retired(),
            final(estimator)@ == old(self)@.checkpointed(checkpoint).confirmed(
                old(estimator)@,
                now@,
            ),
    {
        let ghost before = *self;
        if checkpoint > self.checkpoint {
            self.checkpoint = checkpoint;
        }
        proof {
            assert(self@.history =~= before@.history);
            assert(self@.spare =~= before@.spare);
            assert(self@ == before@.checkpointed(checkpoint));
        }
        let ghost target = self@.retired();
        let ghost link_target = self@.confirmed(estimator@, now@);
        while self.history.len() > 0
            invariant
                self.wf(),
                estimator.wf(),
                self@.retired() == target,
                self@.confirmed(estimator@, now@) == link_target,
            ensures
                self.wf(),
                estimator.wf(),
                self@ == target,
                estimator@ == link_target,
            decreases self.history@.len(),
        {
            assert(self@.history[0] == self.history@[0]@);
            if to_signed_id(self.history[0].frame_id) > self.checkpoint {
                break ;
            }
            let bytes: u64 = frame_bytes(&self.history[0].packets);
            estimator.on_bytes_confirmed(bytes, now);
            self.evict_oldest();
        }
    }

    /// The packets that a NACK asks for again, out of the history. A frame or
    /// a packet that is not there has nothing resent.
    fn retransmit(&self, nack: &Nack, packets: &mut Vec<Vec<u8>>)
        requires
            self.wf(),
        ensures
            contents(final(packets)@) == contents(old(packets)@) + self@.resent(*nack),
    {
        let ghost before = packets@;
        let mut at: usize = 0;
        assert(self@.history.skip(0) =~= self@.history);
        while at < self.history.len()
            invariant
                self.wf(),
                at <= self.history@.len(),
                packets@ == before,
                frame_in(self@.history.skip(at as int), nack.frame_id) == frame_in(
                    self@.history,
                    nack.frame_id,
                ),
            ensures
                at <= self.history@.len(),
                packets@ == before,
                at < self.history@.len() ==> frame_in(self@.history, nack.frame_id) == Some(
                    self.history@[at as int]@,
                ),
                at == self.history@.len() ==> frame_in(self@.history, nack.frame_id) is None,
            decreases self.history@.len() - at,
        {
            assert(self@.history.skip(at as int)[0] == self.history@[at as int]@);
            if to_signed_id(self.history[at].frame_id) == nack.frame_id {
                break ;
            }
            assert(self@.history.skip(at as int).drop_first() =~= self@.history.skip(at + 1));
            at = at + 1;
        }
        if at >= self.history.len() {
            assert(contents(packets@) =~= contents(before) + self@.resent(*nack));
            return ;
        }
        let frame = &self.history[at];
        assert(frame.packets.wf());
        if nack.packet_id == ALL_PACKETS_LOST {
            let count: usize = frame.packets.packet_count();
            let mut next: usize = 0;
            assert(contents(packets@) =~= contents(before) + frame.packets@.take(0));
            while next < count
                invariant
                    frame.packets.wf(),
                    count == frame.packets@.len(),
                    next <= count,
                    contents(packets@) == contents(before) + frame.packets@.take(next as int),
                decreases count - next,
            {
                let ghost earlier = packets@;
                let copy = copied(frame.packets.packet_at(next));
                packets.push(copy);
                proof {
                    assert(contents(packets@) =~= contents(earlier).push(
                        frame.packets@[next as int],
                    ));
                    assert(frame.packets@.take(next + 1) =~= frame.packets@.take(
                        next as int,
                    ).push(frame.packets@[next as int]));
                }
                next = next + 1;
            }
            assert(frame.packets@.take(count as int) =~= frame.packets@);
        } else if let Some(packet) = frame.packets.packet(nack.packet_id) {
            let copy = copied(packet);
            packets.push(copy);
            assert(contents(packets@) =~= contents(before) + self@.resent(*nack));
        } else {
            assert(contents(packets@) =~= contents(before) + self@.resent(*nack));
        }
    }

    /// Acts on a compound packet that arrived when the wall clock read `ntp`:
    /// takes in an acknowledgement, and says what to resend and whether the
    /// receiver lost the picture. `events` is scratch space that ends up
    /// holding what the packet said to this stream.
    pub fn receive_at(
        &mut self,
        packet: &[u8],
        ntp: u64,
        now: Instant,
        events: &mut ReceiverEvents,
        estimator: &mut BandwidthEstimator,
    ) -> (response: StreamResponse)
        requires
            old(self).wf(),
            old(estimator).wf(),
        ensures
            final(self).wf(),
            final(estimator).wf(),
            final(events)@ == old(self)@.heard(packet@, ntp),
            final(self)@ == old(self)@.after_packet(packet@, ntp),
            final(estimator)@ == old(self)@.link_after_packet(
                packet@,
                ntp,
                old(estimator)@,
                now@,
            ),
            contents(response.packets@) == final(self)@.all_resent(final(events)@.nacks),
            response.request_keyframe == (final(events)@.picture_loss && old(self)@.config.kind
                == StreamKind::Video),
            response.acknowledged == final(events)@.checkpoint,
    {
        parse_at(packet, self.config.ssrc, self.checkpoint, ntp, events);
        if let Some(checkpoint) = events.checkpoint_frame_id {
            self.acknowledge(checkpoint, estimator, now);
            proof {
                lemma_retiring_keeps_the_rest(old(self)@.checkpointed(checkpoint));
            }
        }
        let mut packets: Vec<Vec<u8>> = Vec::new();
        let mut at: usize = 0;
        assert(contents(packets@) =~= Seq::empty());
        assert(events.nacks@.take(0) =~= Seq::empty());
        while at < events.nacks.len()
            invariant
                self.wf(),
                at <= events.nacks@.len(),
                contents(packets@) == self@.all_resent(events.nacks@.take(at as int)),
            decreases events.nacks@.len() - at,
        {
            self.retransmit(&events.nacks[at], &mut packets);
            assert(events.nacks@.take(at + 1).drop_last() =~= events.nacks@.take(at as int));
            at = at + 1;
        }
        assert(events.nacks@.take(at as int) =~= events.nacks@);
        StreamResponse {
            packets,
            request_keyframe: events.picture_loss && self.config.kind == StreamKind::Video,
            acknowledged: events.checkpoint_frame_id,
        }
    }

    /// The Sender Report that is due at `now`, if one is.
    pub fn due_report(&mut self, now: Instant) -> (report: Option<[u8; 28]>)
        requires
            old(self).wf(),
        ensures
            final(self).wf(),
            report is Some <==> old(self)@.report_due(now@),
            report matches Some(bytes) ==> bytes@ == old(self)@.report(),
            final(self)@ == if old(self)@.report_due(now@) {
                StreamView { last_report: Some(now@), ..old(self)@ }
            } else {
                old(self)@
            },
    {
        let ghost before = *self;
        let due = match self.last_report {
            Some(at) => now.saturating_duration_since(at).nanos >= Duration::from_millis(
                SENDER_REPORT_INTERVAL_MILLIS,
            ).nanos,
            None => true,
        };
        if !due {
            return None;
        }
        if let Some((rtp, ntp)) = self.last_timestamps {
            let report = build_sender_report(
                self.config.ssrc,
                ntp,
                rtp,
                self.packet_count,
                self.octet_count,
            );
            self.last_report = Some(now);
            proof {
                assert(self@.history =~= before@.history);
                assert(self@.spare =~= before@.spare);
            }
            Some(report)
        } else {
            None
        }
    }
}

/// A copy of some bytes.
fn copied(bytes: &[u8]) -> (copy: Vec<u8>)
    ensures
        copy@ == bytes@,
{
    let mut copy: Vec<u8> = Vec::new();
    copy.extend_from_slice(bytes);
    assert(copy@ =~= bytes@);
    copy
}

/// Retiring frames changes nothing but the history and the spare buffers.
proof fn lemma_retiring_keeps_the_rest(stream: StreamView)
    ensures
        stream.retired().config == stream.config,
    decreases stream.history.len(),
{
    if stream.front_confirmed() {
        lemma_retiring_keeps_the_rest(stream.evicted());
    }
}

/// The frames of the history are numbered upwards, below the next id, which
/// has not left the signed range.
pub open spec fn in_order(stream: StreamView) -> bool {
    &&& forall|i: int, j: int|
        0 <= i < j < stream.history.len() ==> stream.history[i].frame_id
            < stream.history[j].frame_id
    &&& forall|i: int|
        0 <= i < stream.history.len() ==> (#[trigger] stream.history[i]).frame_id
            < stream.next_frame_id
    &&& stream.next_frame_id <= i64::MAX
}

/// A stream numbers its frames one after the other from 0. A key frame stands
/// for itself, any other frame builds on the one before it, and only the first
/// frame carries the playout delay.
pub proof fn law_frames_are_numbered_in_a_row(stream: StreamView, rtp_timestamp: u32, delay: u16)
    requires
        stream.next_frame_id < u64::MAX,
    ensures
        ({
            let key = stream.next_frame(true, rtp_timestamp, delay);
            let delta = stream.next_frame(false, rtp_timestamp, delay);
            let after = stream.begun().next_frame(false, rtp_timestamp, delay);
            &&& key.referenced_frame_id == key.frame_id
            &&& delta.frame_id == key.frame_id
            &&& after.frame_id == delta.frame_id + 1
            &&& after.referenced_frame_id == delta.frame_id
            &&& after.playout_delay_ms is None
            &&& delta.playout_delay_ms is Some <==> delta.frame_id == 0
        }),
{
}

/// Sending a frame under the id given out for it keeps the history in order.
pub proof fn law_sending_keeps_the_order(
    stream: StreamView,
    packets: Seq<Seq<u8>>,
    timestamps: (u32, u64),
)
    requires
        in_order(stream),
        stream.next_frame_id < i64::MAX,
    ensures
        in_order(stream.begun().sent(stream.next_frame_id, packets, timestamps)),
{
    let room = stream.with_room();
    assert(in_order(room)) by {
        if stream.history.len() >= MAX_HISTORY_FRAMES {
            lemma_evicting_keeps_the_order(stream);
        }
    }
    let counted = stream.begun().counted(stream.next_frame_id, packets, timestamps);
    assert(in_order(counted));
    if counted.history.len() > MAX_HISTORY_FRAMES {
        lemma_evicting_keeps_the_order(counted);
    }
}

/// Dropping the oldest frame keeps the history in order.
proof fn lemma_evicting_keeps_the_order(stream: StreamView)
    requires
        in_order(stream),
        stream.history.len() > 0,
    ensures
        in_order(stream.evicted()),
{
    let rest = stream.evicted();
    assert forall|i: int, j: int| 0 <= i < j < rest.history.len() implies rest.history[i].frame_id
        < rest.history[j].frame_id by {
        assert(rest.history[i] == stream.history[i + 1]);
        assert(rest.history[j] == stream.history[j + 1]);
    }
    assert forall|i: int| 0 <= i < rest.history.len() implies (#[trigger]
    rest.history[i]).frame_id < rest.next_frame_id by {
        assert(rest.history[i] == stream.history[i + 1]);
    }
}

/// Retiring frames keeps the history in order, and what is left of it is
/// exactly the frames past the checkpoint.
pub proof fn law_only_unconfirmed_frames_are_kept(stream: StreamView)
    requires
        in_order(stream),
    ensures
        in_order(stream.retired()),
        stream.retired().next_frame_id == stream.next_frame_id,
        stream.retired().checkpoint == stream.checkpoint,
        forall|i: int|
            0 <= i < stream.retired().history.len() ==> (#[trigger]
            stream.retired().history[i]).frame_id > stream.checkpoint,
        forall|i: int|
            0 <= i < stream.history.len() && (#[trigger] stream.history[i]).frame_id
                > stream.checkpoint ==> stream.retired().history.contains(stream.history[i]),
    decreases stream.history.len(),
{
    if stream.front_confirmed() {
        let rest = stream.evicted();
        lemma_evicting_keeps_the_order(stream);
        law_only_unconfirmed_frames_are_kept(rest);
        assert forall|i: int|
            0 <= i < stream.history.len() && (#[trigger] stream.history[i]).frame_id
                > stream.checkpoint implies stream.retired().history.contains(
            stream.history[i],
        ) by {
            assert(i > 0);
            assert(rest.history[i - 1] == stream.history[i]);
        }
    } else {
        assert forall|i: int| 0 <= i < stream.history.len() implies (#[trigger]
        stream.history[i]).frame_id > stream.checkpoint by {
            assert(stream.history[0].frame_id <= stream.history[i].frame_id);
        }
    }
}

/// What the receiver has confirmed it never takes back: a checkpoint only moves
/// the stream's own forward.
pub proof fn law_checkpoints_never_go_back(stream: StreamView, checkpoint: i64)
    ensures
        stream.acknowledged(Some(checkpoint)).checkpoint >= stream.checkpoint,
        stream.acknowledged(Some(checkpoint)).checkpoint >= checkpoint,
        stream.acknowledged(Some(checkpoint)).checkpoint == stream.checkpoint
            || stream.acknowledged(Some(checkpoint)).checkpoint == checkpoint,
{
    lemma_retiring_keeps_the_checkpoint(stream.checkpointed(checkpoint));
}

proof fn lemma_retiring_keeps_the_checkpoint(stream: StreamView)
    ensures
        stream.retired().checkpoint == stream.checkpoint,
    decreases stream.history.len(),
{
    if stream.front_confirmed() {
        lemma_retiring_keeps_the_checkpoint(stream.evicted());
    }
}

/// A frame of the history is found under its id.
proof fn lemma_frame_is_found(history: Seq<SentView>, at: int)
    requires
        0 <= at < history.len(),
        history[at].frame_id <= i64::MAX,
        forall|i: int|
            0 <= i < at ==> signed_id((#[trigger] history[i]).frame_id) != history[at].frame_id,
    ensures
        frame_in(history, history[at].frame_id as i64) == Some(history[at]),
    decreases at,
{
    if at > 0 {
        let rest = history.drop_first();
        assert(rest[at - 1] == history[at]);
        assert forall|i: int| 0 <= i < at - 1 implies signed_id((#[trigger] rest[i]).frame_id)
            != rest[at - 1].frame_id by {
            assert(rest[i] == history[i + 1]);
        }
        lemma_frame_is_found(rest, at - 1);
        assert(signed_id(history[0].frame_id) != history[at].frame_id);
    }
}

/// A NACK for a frame of the history is answered with what was sent under its
/// id: all packets for a lost frame, the one packet for a lost packet, nothing
/// for a packet the frame never had.
pub proof fn law_nacked_packets_are_resent(stream: StreamView, at: int, packet_id: u16)
    requires
        in_order(stream),
        0 <= at < stream.history.len(),
    ensures
        ({
            let frame = stream.history[at];
            let resent = stream.resent(Nack { frame_id: frame.frame_id as i64, packet_id });
            if packet_id == ALL_PACKETS_LOST {
                resent == frame.packets
            } else if packet_id < frame.packets.len() {
                resent == seq![frame.packets[packet_id as int]]
            } else {
                resent == Seq::<Seq<u8>>::empty()
            }
        }),
{
    assert forall|i: int| 0 <= i < at implies signed_id((#[trigger] stream.history[i]).frame_id)
        != stream.history[at].frame_id by {
        assert(stream.history[i].frame_id < stream.history[at].frame_id);
    }
    lemma_frame_is_found(stream.history, at);
}

/// A frame that was just sent can be resent whole.
pub proof fn law_sent_frames_can_be_resent(
    stream: StreamView,
    packets: Seq<Seq<u8>>,
    timestamps: (u32, u64),
)
    requires
        in_order(stream),
        stream.next_frame_id < i64::MAX,
    ensures
        stream.begun().sent(stream.next_frame_id, packets, timestamps).resent(
            (Nack { frame_id: stream.next_frame_id as i64, packet_id: ALL_PACKETS_LOST }),
        ) == packets,
{
    let after = stream.begun().sent(stream.next_frame_id, packets, timestamps);
    law_sending_keeps_the_order(stream, packets, timestamps);
    assert(after.history.last() == (SentView { frame_id: stream.next_frame_id, packets }));
    law_nacked_packets_are_resent(after, after.history.len() - 1, ALL_PACKETS_LOST);
}

/// A NACK for a frame that the stream does not keep has nothing resent.
pub proof fn law_unknown_frames_are_not_resent(stream: StreamView, nack: Nack)
    requires
        forall|i: int|
            0 <= i < stream.history.len() ==> signed_id((#[trigger] stream.history[i]).frame_id)
                != nack.frame_id,
    ensures
        stream.resent(nack) == Seq::<Seq<u8>>::empty(),
{
    lemma_frame_is_missing(stream.history, nack.frame_id);
}

proof fn lemma_frame_is_missing(history: Seq<SentView>, id: i64)
    requires
        forall|i: int| 0 <= i < history.len() ==> signed_id((#[trigger] history[i]).frame_id) != id,
    ensures
        frame_in(history, id) is None,
    decreases history.len(),
{
    if history.len() > 0 {
        assert(signed_id(history[0].frame_id) != id);
        let rest = history.drop_first();
        assert forall|i: int| 0 <= i < rest.len() implies signed_id((#[trigger] rest[i]).frame_id)
            != id by {
            assert(rest[i] == history[i + 1]);
        }
        lemma_frame_is_missing(rest, id);
    }
}

/// How many packet buffers a stream holds, in use and spare.
pub open spec fn buffer_count(stream: StreamView) -> nat {
    stream.history.len() + stream.spare.len()
}

/// Sends and evictions pair up: a stream never holds more buffers than the
/// history cap, whatever the receiver confirms. While a frame is being sent, its
/// own buffer counts among them.
pub proof fn law_buffers_are_bounded(
    stream: StreamView,
    packets: Seq<Seq<u8>>,
    timestamps: (u32, u64),
)
    requires
        buffer_count(stream) <= MAX_HISTORY_FRAMES,
    ensures
        buffer_count(stream.begun()) + 1 <= MAX_HISTORY_FRAMES,
        buffer_count(stream.begun().sent(stream.next_frame_id, packets, timestamps))
            <= MAX_HISTORY_FRAMES,
        buffer_count(stream.evicted()) == buffer_count(stream),
        stream.retired().history.len() <= stream.history.len(),
        buffer_count(stream.retired()) == buffer_count(stream),
    decreases stream.history.len(),
{
    if stream.front_confirmed() {
        law_buffers_are_bounded(stream.evicted(), packets, timestamps);
    }
}

/// A stream that has sent nothing holds no buffer.
pub proof fn law_a_fresh_stream_holds_no_buffer(config: StreamConfig)
    ensures
        buffer_count(StreamView::fresh(config)) == 0,
        in_order(StreamView::fresh(config)),
{
}

/// Acknowledgements feed the confirmed side of the link estimate and nothing else.
pub proof fn law_acknowledging_is_not_sending(stream: StreamView, link: EstimatorView, now: int)
    ensures
        stream.confirmed(link, now).sent == link.sent,
        stream.confirmed(link, now).packets == link.packets,
        stream.confirmed(link, now).started == link.started,
        stream.confirmed(link, now).round_trip == link.round_trip,
        !stream.front_confirmed() ==> stream.confirmed(link, now) == link,
    decreases stream.history.len(),
{
    if stream.front_confirmed() {
        let next = EstimatorView {
            confirmed: link.confirmed.accumulated(
                wire_bytes(stream.history[0].packets) as u64,
                link.sent_at(now),
            ),
            ..link
        };
        law_acknowledging_is_not_sending(stream.evicted(), next, now);
    }
}

/// Once a report went out, none is due before the report interval is over.
pub proof fn law_reports_are_spaced(stream: StreamView, now: int, later: int)
    requires
        stream.report_due(now),
    ensures
        (StreamView { last_report: Some(now), ..stream }).report_due(later) <==> later - now
            >= SENDER_REPORT_INTERVAL_MILLIS * 1_000_000,
{
}

/// Feedback keeps the history in order and within its cap, and once the receiver
/// has confirmed something, only frames past the checkpoint are left.
pub proof fn law_feedback_keeps_the_history_sound(stream: StreamView, packet: Seq<u8>, ntp: u64)
    requires
        in_order(stream),
        buffer_count(stream) <= MAX_HISTORY_FRAMES,
    ensures
        in_order(stream.after_packet(packet, ntp)),
        stream.after_packet(packet, ntp).history.len() <= stream.history.len(),
        buffer_count(stream.after_packet(packet, ntp)) == buffer_count(stream),
        stream.heard(packet, ntp).checkpoint is Some ==> forall|i: int|
            0 <= i < stream.after_packet(packet, ntp).history.len() ==> (#[trigger]
            stream.after_packet(packet, ntp).history[i]).frame_id > stream.after_packet(
                packet,
                ntp,
            ).checkpoint,
{
    if let Some(checkpoint) = stream.heard(packet, ntp).checkpoint {
        let moved = stream.checkpointed(checkpoint);
        law_only_unconfirmed_frames_are_kept(moved);
        law_buffers_are_bounded(moved, Seq::empty(), (0, 0));
    }
}

/// A frame that the receiver has confirmed is never sent again.
pub proof fn law_confirmed_frames_are_never_resent(
    stream: StreamView,
    checkpoint: i64,
    nack: Nack,
)
    requires
        in_order(stream),
        nack.frame_id <= checkpoint,
    ensures
        stream.acknowledged(Some(checkpoint)).resent(nack) == Seq::<Seq<u8>>::empty(),
{
    let moved = stream.checkpointed(checkpoint);
    law_only_unconfirmed_frames_are_kept(moved);
    let after = moved.retired();
    assert forall|i: int| 0 <= i < after.history.len() implies signed_id(
        (#[trigger] after.history[i]).frame_id,
    ) != nack.frame_id by {
        assert(after.history[i].frame_id > after.checkpoint);
    }
    law_unknown_frames_are_not_resent(after, nack);
}

/// NACKs are answered one by one: what two runs of them have resent is what the
/// first has and then what the second does, whatever the frames they are for.
pub proof fn law_nacks_are_answered_one_by_one(
    stream: StreamView,
    first: Seq<Nack>,
    second: Seq<Nack>,
)
    ensures
        stream.all_resent(first + second) == stream.all_resent(first) + stream.all_resent(second),
        first.len() == 0 ==> stream.all_resent(first).len() == 0,
        first.len() == 1 ==> stream.all_resent(first) == stream.resent(first[0]),
    decreases second.len(),
{
    if second.len() > 0 {
        law_nacks_are_answered_one_by_one(stream, first, second.drop_last());
        assert((first + second).drop_last() =~= first + second.drop_last());
        assert(stream.all_resent(first + second) =~= stream.all_resent(first)
            + stream.all_resent(second));
    } else {
        assert(first + second =~= first);
        assert(stream.all_resent(first) + stream.all_resent(second) =~= stream.all_resent(first));
    }
    if first.len() == 1 {
        assert(first.drop_last() =~= Seq::empty());
        assert(stream.all_resent(first.drop_last()) =~= Seq::empty());
        assert(stream.all_resent(first) =~= stream.resent(first[0]));
    }
}

/// How many packets a NACK asks for of a frame: all, one, or none that it has.
pub open spec fn asked_of(frame: SentView, nack: Nack) -> nat {
    if nack.packet_id == 0xffff {
        frame.packets.len()
    } else if nack.packet_id < frame.packets.len() {
        1
    } else {
        0
    }
}

/// How many packets a NACK asks for of those frames of a history that carry its id.
pub open spec fn asked_of_history(history: Seq<SentView>, nack: Nack) -> nat
    decreases history.len(),
{
    if history.len() == 0 {
        0
    } else {
        asked_of_history(history.drop_last(), nack) + if history.last().frame_id == nack.frame_id {
            asked_of(history.last(), nack)
        } else {
            0
        }
    }
}

/// How many packets some NACKs ask for, each for itself.
pub open spec fn asked_in_all(history: Seq<SentView>, nacks: Seq<Nack>) -> nat
    decreases nacks.len(),
{
    if nacks.len() == 0 {
        0
    } else {
        asked_in_all(history, nacks.drop_last()) + asked_of_history(history, nacks.last())
    }
}

proof fn lemma_asked_of_no_frame(history: Seq<SentView>, nack: Nack)
    requires
        forall|i: int|
            0 <= i < history.len() ==> (#[trigger] history[i]).frame_id != nack.frame_id,
    ensures
        asked_of_history(history, nack) == 0,
    decreases history.len(),
{
    if history.len() > 0 {
        let rest = history.drop_last();
        assert forall|i: int| 0 <= i < rest.len() implies (#[trigger] rest[i]).frame_id
            != nack.frame_id by {
            assert(rest[i] == history[i]);
        }
        lemma_asked_of_no_frame(rest, nack);
        assert(history.last() == history[history.len() - 1]);
    }
}

proof fn lemma_asked_of_one_frame(history: Seq<SentView>, nack: Nack, at: int)
    requires
        0 <= at < history.len(),
        history[at].frame_id == nack.frame_id,
        forall|i: int, j: int|
            0 <= i < j < history.len() ==> history[i].frame_id < history[j].frame_id,
    ensures
        asked_of_history(history, nack) == asked_of(history[at], nack),
    decreases history.len(),
{
    let rest = history.drop_last();
    assert forall|i: int, j: int| 0 <= i < j < rest.len() implies rest[i].frame_id
        < rest[j].frame_id by {
        assert(rest[i] == history[i] && rest[j] == history[j]);
    }
    assert(history.last() == history[history.len() - 1]);
    if at == history.len() - 1 {
        assert forall|i: int| 0 <= i < rest.len() implies (#[trigger] rest[i]).frame_id
            != nack.frame_id by {
            assert(history[i].frame_id < history[at].frame_id);
        }
        lemma_asked_of_no_frame(rest, nack);
    } else {
        assert(history[at].frame_id < history[history.len() - 1].frame_id);
        assert(rest[at] == history[at]);
        lemma_asked_of_one_frame(rest, nack, at);
    }
}

/// What one NACK has resent, by the frames of the history.
proof fn lemma_resent(stream: StreamView, nack: Nack)
    requires
        in_order(stream),
    ensures
        stream.resent(nack).len() == asked_of_history(stream.history, nack),
{
    if exists|at: int|
        0 <= at < stream.history.len() && (#[trigger] stream.history[at]).frame_id
            == nack.frame_id {
        let at = choose|at: int|
            0 <= at < stream.history.len() && (#[trigger] stream.history[at]).frame_id
                == nack.frame_id;
        law_nacked_packets_are_resent(stream, at, nack.packet_id);
        assert(nack == (Nack {
            frame_id: stream.history[at].frame_id as i64,
            packet_id: nack.packet_id,
        }));
        lemma_asked_of_one_frame(stream.history, nack, at);
    } else {
        assert forall|i: int| 0 <= i < stream.history.len() implies signed_id(
            (#[trigger] stream.history[i]).frame_id,
        ) != nack.frame_id by {}
        law_unknown_frames_are_not_resent(stream, nack);
        lemma_asked_of_no_frame(stream.history, nack);
    }
}

proof fn lemma_all_resent(stream: StreamView, nacks: Seq<Nack>, k: int)
    requires
        in_order(stream),
        0 <= k < nacks.len(),
    ensures
        stream.all_resent(nacks).len() == asked_in_all(stream.history, nacks),
        forall|j: int|
            0 <= j < stream.resent(nacks[k]).len() ==> stream.all_resent(nacks).contains(
                #[trigger] stream.resent(nacks[k])[j],
            ),
    decreases nacks.len(),
{
    let rest = nacks.drop_last();
    let last = nacks.last();
    lemma_resent(stream, last);
    if rest.len() > 0 {
        lemma_all_resent(
            stream,
            rest,
            if k < rest.len() {
                k
            } else {
                0
            },
        );
    }
    let before = stream.all_resent(rest);
    let all = stream.all_resent(nacks);
    assert(before.len() == asked_in_all(stream.history, rest));
    assert(all =~= before + stream.resent(last));
    assert forall|j: int| 0 <= j < stream.resent(nacks[k]).len() implies all.contains(
        #[trigger] stream.resent(nacks[k])[j],
    ) by {
        let packet = stream.resent(nacks[k])[j];
        if k < rest.len() {
            assert(rest[k] == nacks[k]);
            assert(before.contains(packet));
            let n = choose|n: int| 0 <= n < before.len() && before[n] == packet;
            assert(all[n] == packet);
        } else {
            assert(all[before.len() + j] == packet);
        }
    }
}

/// Every NACK that a packet tells is answered, whatever the NACKs around it:
/// where the history holds the frame, the packet it asks for is resent, or all
/// of them for a frame that is lost whole. In all, as many packets are resent as
/// the NACKs ask for, each for itself.
pub proof fn law_every_nack_is_answered(
    stream: &mut Stream,
    packet: &[u8],
    ntp: u64,
    now: Instant,
    events: &mut ReceiverEvents,
    estimator: &mut BandwidthEstimator,
    response: StreamResponse,
    k: int,
    at: int,
)
    requires
        call_ensures(
            Stream::receive_at,
            (stream, packet, ntp, now, events, estimator),
            response,
        ),
        in_order(old(stream)@),
        0 <= k < final(events)@.nacks.len(),
        0 <= at < final(stream)@.history.len(),
    ensures
        response.packets@.len() == asked_in_all(
            final(stream)@.history,
            final(events)@.nacks,
        ),
        ({
            let nack = final(events)@.nacks[k];
            let frame = final(stream)@.history[at];
            frame.frame_id == nack.frame_id ==> {
                &&& nack.packet_id == 0xffff ==> forall|j: int|
                    0 <= j < frame.packets.len() ==> is_among(
                        response.packets@,
                        #[trigger] frame.packets[j],
                    )
                &&& nack.packet_id < 0xffff && nack.packet_id < frame.packets.len() ==> is_among(
                    response.packets@,
                    frame.packets[nack.packet_id as int],
                )
            }
        }),
{
    let heard = old(stream)@.heard(packet@, ntp);
    if let Some(checkpoint) = heard.checkpoint {
        law_only_unconfirmed_frames_are_kept(old(stream)@.checkpointed(checkpoint));
    }
    let after = final(stream)@;
    let nacks = final(events)@.nacks;
    lemma_all_resent(after, nacks, k);
    let sent = contents(response.packets@);
    assert(sent == after.all_resent(nacks));
    let nack = nacks[k];
    let frame = after.history[at];
    if frame.frame_id == nack.frame_id {
        law_nacked_packets_are_resent(after, at, nack.packet_id);
        assert(nack == (Nack { frame_id: frame.frame_id as i64, packet_id: nack.packet_id }));
        let resent = after.resent(nack);
        assert forall|j: int| 0 <= j < resent.len() implies is_among(
            response.packets@,
            #[trigger] resent[j],
        ) by {
            assert(sent.contains(resent[j]));
            let n = choose|n: int| 0 <= n < sent.len() && sent[n] == resent[j];
            assert(response.packets@[n]@ == resent[j]);
        }
        if nack.packet_id == 0xffff {
            assert(resent == frame.packets);
        } else if nack.packet_id < frame.packets.len() {
            assert(resent[0] == frame.packets[nack.packet_id as int]);
        }
    }
}

/// Whether one of some packets holds `bytes`.
pub open spec fn is_among(packets: Seq<Vec<u8>>, bytes: Seq<u8>) -> bool {
    exists|n: int| 0 <= n < packets.len() && (#[trigger] packets[n])@ == bytes
}

/// The confirmations of the first frames of a history, each for all bytes of
/// its packets.
pub open spec fn confirmations(history: Seq<SentView>, n: int, now: int) -> Seq<LinkEvent> {
    Seq::new(
        n as nat,
        |i: int| LinkEvent::Confirmed(history[i].packets.flatten().len() as u64, now),
    )
}

/// The bytes of the first `n` frames of a history, each frame's in a row.
pub open spec fn buffers(history: Seq<SentView>, n: int) -> Seq<Seq<u8>> {
    Seq::new(n as nat, |i: int| history[i].packets.flatten())
}

/// Retiring takes frames off the front of the history, confirms each, and
/// recycles its buffer.
pub proof fn lemma_retiring(
    stream: StreamView,
    link: EstimatorView,
    started: int,
    calls: Seq<LinkEvent>,
    now: int,
)
    requires
        link == link_after(started, calls),
    ensures
        ({
            let after = stream.retired();
            let n = stream.history.len() - after.history.len();
            &&& 0 <= n <= stream.history.len()
            &&& after.history == stream.history.skip(n)
            &&& stream.confirmed(link, now) == link_after(
                started,
                calls + confirmations(stream.history, n, now),
            )
            &&& after.config == stream.config
            &&& after.next_frame_id == stream.next_frame_id
            &&& after.checkpoint == stream.checkpoint
            &&& after.packet_count == stream.packet_count
            &&& after.octet_count == stream.octet_count
            &&& after.last_report == stream.last_report
            &&& after.last_timestamps == stream.last_timestamps
            &&& after.spare == stream.spare + buffers(stream.history, n)
        }),
    decreases stream.history.len(),
{
    if stream.front_confirmed() {
        let rest = stream.evicted();
        let bytes = wire_bytes(stream.history[0].packets) as u64;
        law_frames_are_their_packets_in_a_row(stream.history[0].packets);
        let next = EstimatorView {
            confirmed: link.confirmed.accumulated(bytes, link.sent_at(now)),
            ..link
        };
        let more = calls.push(LinkEvent::Confirmed(bytes, now));
        assert(more.drop_last() =~= calls);
        assert(next == link_after(started, more));
        lemma_retiring(rest, next, started, more, now);
        let after = stream.retired();
        let n = stream.history.len() - after.history.len();
        assert(rest.history.skip(n - 1) =~= stream.history.skip(n));
        assert(after.spare =~= stream.spare + buffers(stream.history, n)) by {
            assert forall|i: int| 0 < i < n implies #[trigger] stream.history[i]
                == rest.history[i - 1] by {}
        }
        assert(more + confirmations(rest.history, n - 1, now) =~= calls + confirmations(
            stream.history,
            n,
            now,
        )) by {
            let left = more + confirmations(rest.history, n - 1, now);
            let right = calls + confirmations(stream.history, n, now);
            assert forall|i: int| 0 <= i < left.len() implies left[i] == right[i] by {
                if i > calls.len() {
                    assert(rest.history[i - calls.len() - 1] == stream.history[i - calls.len()]);
                }
            }
        }
    } else {
        assert(stream.history.skip(0) =~= stream.history);
        assert(calls + confirmations(stream.history, 0, now) =~= calls);
        assert(stream.spare =~= stream.spare + buffers(stream.history, 0));
    }
}

/// What a compound packet does to a stream: it is read for the stream's own
/// source id, next to what it has confirmed. What it confirms moves up the
/// checkpoint, never back, and takes off the front of the history exactly the
/// frames up to there. Each of them counts for the link as its bytes confirmed,
/// once, and leaves its buffer to be used again. Nothing else about the stream changes. A key frame is asked of the
/// video stream whose picture was lost.
pub proof fn law_feedback_retires_what_it_confirms(
    stream: &mut Stream,
    packet: &[u8],
    ntp: u64,
    now: Instant,
    events: &mut ReceiverEvents,
    estimator: &mut BandwidthEstimator,
    response: StreamResponse,
    started: int,
    calls: Seq<LinkEvent>,
)
    requires
        call_ensures(
            Stream::receive_at,
            (stream, packet, ntp, now, events, estimator),
            response,
        ),
        in_order(old(stream)@),
        old(estimator)@ == link_after(started, calls),
    ensures
        final(events)@ == after_compound(
            packet@,
            old(stream)@.config.ssrc,
            old(stream)@.checkpoint,
            ntp,
            EventsView::none(),
        ),
        response.acknowledged == final(events)@.checkpoint,
        response.request_keyframe <==> final(events)@.picture_loss && old(stream)@.config.kind
            is Video,
        ({
            let before = old(stream)@;
            let after = final(stream)@;
            let told = final(events)@.checkpoint;
            let n = before.history.len() - after.history.len();
            &&& told is None ==> after == before && n == 0
            &&& told matches Some(frame) ==> {
                &&& after.checkpoint >= before.checkpoint && after.checkpoint >= frame
                &&& after.checkpoint == before.checkpoint || after.checkpoint == frame
                &&& forall|i: int|
                    0 <= i < n ==> (#[trigger] before.history[i]).frame_id <= after.checkpoint
                &&& forall|i: int|
                    0 <= i < after.history.len() ==> (#[trigger] after.history[i]).frame_id
                        > after.checkpoint
            }
            &&& 0 <= n <= before.history.len()
            &&& after.history == before.history.skip(n)
            &&& final(estimator)@ == link_after(
                started,
                calls + confirmations(before.history, n, now@),
            )
            &&& after.config == before.config
            &&& after.next_frame_id == before.next_frame_id
            &&& after.packet_count == before.packet_count
            &&& after.octet_count == before.octet_count
            &&& after.last_report == before.last_report
            &&& after.last_timestamps == before.last_timestamps
            &&& after.spare == before.spare + buffers(before.history, n)
        }),
{
    let before = old(stream)@;
    let after = final(stream)@;
    let n = before.history.len() - after.history.len();
    match before.heard(packet@, ntp).checkpoint {
        Some(frame) => {
            let moved = before.checkpointed(frame);
            law_only_unconfirmed_frames_are_kept(moved);
            lemma_retiring(moved, old(estimator)@, started, calls, now@);
            assert forall|i: int| 0 <= i < n implies (#[trigger] before.history[i]).frame_id
                <= after.checkpoint by {
                if moved.history[i].frame_id > moved.checkpoint {
                    let kept = moved.retired().history;
                    assert(kept.contains(moved.history[i]));
                    let k = choose|k: int| 0 <= k < kept.len() && kept[k] == moved.history[i];
                    assert(kept[k] == moved.history[k + n]);
                    assert(moved.history[i].frame_id < moved.history[k + n].frame_id);
                }
            }
        },
        None => {
            assert(before.history.skip(0) =~= before.history);
            assert(calls + confirmations(before.history, 0, now@) =~= calls);
            assert(before.spare =~= before.spare + buffers(before.history, 0));
        },
    }
}

/// A stream starts with frame 0, with nothing confirmed, sent or reported.
pub proof fn law_a_stream_starts_empty(config: StreamConfig, stream: Stream)
    requires
        call_ensures(Stream::new, (&config,), stream),
    ensures
        stream@.config == config,
        stream@.next_frame_id == 0,
        stream@.checkpoint == -1,
        stream@.history.len() == 0,
        stream@.spare.len() == 0,
        stream@.packet_count == 0,
        stream@.octet_count == 0,
        stream@.last_report is None,
        stream@.last_timestamps is None,
{
}

/// A frame that is begun gets the next number, and the one after it the next
/// again. It is decoded from itself when it is a key frame, and from the frame
/// before it otherwise. The first one tells the playout delay. Of the history at
/// most the oldest frame goes, and only when 120 are kept. The frame gets the
/// buffer that was left last, or a new one for want of any.
pub proof fn law_frames_begin_in_a_row(
    stream: &mut Stream,
    chunk: &EncodedChunk,
    playout_delay_ms: u16,
    next: (OutboundFrame, Vec<u8>),
)
    requires
        call_ensures(Stream::begin_frame, (stream, chunk, playout_delay_ms), next),
    ensures
        ({
            let before = old(stream)@;
            let after = final(stream)@;
            let frame = next.0;
            &&& frame.frame_id == before.next_frame_id
            &&& before.next_frame_id < u64::MAX ==> after.next_frame_id == before.next_frame_id + 1
            &&& before.next_frame_id == u64::MAX ==> after.next_frame_id == 0
            &&& frame.is_key_frame == chunk.is_key_frame
            &&& frame.rtp_timestamp == chunk.rtp_timestamp
            &&& chunk.is_key_frame ==> frame.referenced_frame_id == frame.frame_id
            &&& !chunk.is_key_frame && frame.frame_id > 0 ==> frame.referenced_frame_id + 1
                == frame.frame_id
            &&& frame.frame_id == 0 ==> frame.referenced_frame_id == 0 && frame.playout_delay_ms
                == Some(playout_delay_ms)
            &&& frame.frame_id > 0 ==> frame.playout_delay_ms is None
            &&& before.history.len() < 120 ==> after.history == before.history
            &&& before.history.len() >= 120 ==> after.history == before.history.skip(1)
            &&& before.history.len() >= 120 ==> next.1@ == before.history[0].packets.flatten()
                && after.spare == before.spare
            &&& before.history.len() < 120 && before.spare.len() > 0 ==> next.1@
                == before.spare.last() && after.spare == before.spare.drop_last()
            &&& before.history.len() < 120 && before.spare.len() == 0 ==> next.1@.len() == 0
                && after.spare.len() == 0
            &&& after.config == before.config
            &&& after.checkpoint == before.checkpoint
            &&& after.packet_count == before.packet_count
            &&& after.octet_count == before.octet_count
            &&& after.last_report == before.last_report
            &&& after.last_timestamps == before.last_timestamps
        }),
{
    let before = old(stream)@;
    if before.history.len() >= 120 {
        assert(before.history.drop_first() =~= before.history.skip(1));
        law_frames_are_their_packets_in_a_row(before.history[0].packets);
        let last = before.history[0].packets.flatten();
        assert(before.spare.push(last).drop_last() =~= before.spare);
    }
}

/// What the octet counter takes in of packets that it can count is their bytes.
pub proof fn lemma_octets(packets: Seq<Seq<u8>>)
    requires
        forall|i: int| 0 <= i < packets.len() ==> (#[trigger] packets[i]).len() <= u32::MAX,
    ensures
        octet_sum(packets) == packets.flatten().len(),
    decreases packets.len(),
{
    packets.lemma_flatten_and_flatten_alt_are_equivalent();
    if packets.len() > 0 {
        let rest = packets.drop_last();
        assert forall|i: int| 0 <= i < rest.len() implies (#[trigger] rest[i]).len()
            <= u32::MAX by {
            assert(rest[i] == packets[i]);
        }
        lemma_octets(rest);
        rest.lemma_flatten_and_flatten_alt_are_equivalent();
        assert(packets.last() == packets[packets.len() - 1]);
    }
}

/// The packets that are told as dropped are all those that did not go out.
pub proof fn law_dropped_packets_are_those_that_did_not_go(sent: Seq<bool>)
    ensures
        unsent(sent) == sent.to_multiset().count(false),
        unsent(sent) + sent.to_multiset().count(true) == sent.len(),
    decreases sent.len(),
{
    broadcast use vstd::seq_lib::group_to_multiset_ensures;

    if sent.len() > 0 {
        law_dropped_packets_are_those_that_did_not_go(sent.drop_last());
        assert(sent =~= sent.drop_last().push(sent.last()));
    }
}

/// A frame that was sent is counted with all its packets and all their bytes,
/// is the newest of the history with its packets as they are, and gives the
/// stream its timestamps. The packets that did not go out are told.
pub proof fn law_sent_frames_are_counted(
    stream: &mut Stream,
    chunk: &EncodedChunk,
    frame_id: u64,
    packets: PacketizedFrame,
    sent: &Vec<bool>,
    dropped: u32,
)
    requires
        call_ensures(Stream::finish_frame, (stream, chunk, frame_id, packets, sent), dropped),
        forall|i: int| 0 <= i < packets@.len() ==> (#[trigger] packets@[i]).len() <= u32::MAX,
        sent@.len() <= u32::MAX,
    ensures
        ({
            let before = old(stream)@;
            let after = final(stream)@;
            &&& (after.packet_count - before.packet_count - packets@.len()) % 0x1_0000_0000 == 0
            &&& (after.octet_count - before.octet_count - packets@.flatten().len())
                % 0x1_0000_0000 == 0
            &&& dropped == sent@.to_multiset().count(false)
            &&& after.last_timestamps == Some((chunk.rtp_timestamp, chunk.ntp_timestamp))
            &&& after.history.last() == (SentView { frame_id, packets: packets@ })
            &&& before.history.len() < 120 ==> after.history.drop_last() == before.history
            &&& before.history.len() >= 120 ==> after.history.drop_last() == before.history.skip(
                1,
            )
            &&& after.config == before.config
            &&& after.checkpoint == before.checkpoint
            &&& after.next_frame_id == before.next_frame_id
            &&& after.last_report == before.last_report
        }),
{
    let before = old(stream)@;
    let after = final(stream)@;
    lemma_octets(packets@);
    law_dropped_packets_are_those_that_did_not_go(sent@);
    if before.history.len() < 120 {
        assert(after.history.drop_last() =~= before.history);
    } else {
        assert(after.history.drop_last() =~= before.history.skip(1));
    }
}

/// A Sender Report goes out once a frame was sent and half a second has gone by
/// since the last one. It carries the stream's source id and counters, and the
/// timestamps of its latest frame.
pub proof fn law_reports_tell_the_stream(
    stream: &mut Stream,
    now: Instant,
    report: Option<[u8; 28]>,
)
    requires
        call_ensures(Stream::due_report, (stream, now), report),
    ensures
        ({
            let before = old(stream)@;
            let after = final(stream)@;
            &&& report is Some <==> before.last_timestamps is Some && (before.last_report is None
                || now@ - before.last_report->Some_0 >= 500_000_000)
            &&& report matches Some(bytes) ==> before.last_timestamps matches Some((rtp, ntp)) && {
                &&& is_message(bytes@, 200, 0)
                &&& spells(bytes@, 4, before.config.ssrc as int)
                &&& spells(bytes@, 8, ntp as int / 0x1_0000_0000)
                &&& spells(bytes@, 12, ntp as int % 0x1_0000_0000)
                &&& spells(bytes@, 16, rtp as int)
                &&& spells(bytes@, 20, before.packet_count as int)
                &&& spells(bytes@, 24, before.octet_count as int)
            }
            &&& report is Some ==> after.last_report == Some(now@)
            &&& report is None ==> after.last_report == before.last_report
            &&& after == (StreamView { last_report: after.last_report, ..before })
        }),
{
    let before = old(stream)@;
    if let Some(bytes) = report {
        let (rtp, ntp) = before.last_timestamps->Some_0;
        lemma_report_spells(
            before.config.ssrc,
            ntp,
            rtp,
            before.packet_count,
            before.octet_count,
        );
    }
}

/// A stream encrypts with its own key.
pub proof fn law_streams_encrypt_with_their_key(
    stream: &Stream,
    counter: &[u8; 16],
    payload: &mut Vec<u8>,
    at: int,
)
    requires
        call_ensures(Stream::encrypt, (stream, counter, payload), ()),
        0 <= at < old(payload)@.len(),
    ensures
        final(payload)@.len() == old(payload)@.len(),
        final(payload)@[at] == old(payload)@[at] ^ aes_ctr_keystream(
            stream@.config.aes_key@,
            counter@,
            at,
        ),
{
}

/// A stream tells its kind, and how many octets and packets it has sent.
pub proof fn law_streams_tell_what_they_sent(
    stream: Stream,
    kind: StreamKind,
    counters: (u32, u32),
)
    requires
        call_ensures(Stream::kind, (&stream,), kind),
        call_ensures(Stream::counters, (&stream,), counters),
    ensures
        kind == stream@.config.kind,
        counters.0 == stream@.octet_count,
        counters.1 == stream@.packet_count,
{
}

} // verus!
