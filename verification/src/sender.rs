//! The media sender between its inputs: encoded chunks, receiver feedback and
//! the clock go in, packets to send, encoder settings and reports come out.

use std::collections::VecDeque;

use vstd::prelude::*;

use crate::bandwidth::{
    comes_to, counted, is_next_bitrate, kept_up, law_the_estimate_follows_from_the_window,
    lemma_link_counts_packets, lemma_next_bitrate, link_after, next_bitrate, next_bitrate_spec,
    none_after, packet_samples, point, slices_between, slot_at, BandwidthEstimator, EstimatorView,
    LinkEvent, CONTROL_INTERVAL_NANOS,
};
use crate::crypto::{aes_ctr_keystream, encrypted};
use crate::frames::{OutboundFrame, PacketizedFrame};
use crate::rtcp::{after_compound, ntp_now, sender_report, EventsView, ReceiverEvents};
use crate::stream::{
    confirmations, contents, law_acknowledging_is_not_sending,
    law_dropped_packets_are_those_that_did_not_go, lemma_octets, lemma_retiring, octet_sum, unsent,
    EncodedChunk, SentView, Stream, StreamConfig, StreamKind, StreamResponse, StreamView,
};
use crate::time::{elapsed, Duration, Instant};

verus! {

/// How long video may flow with no RTCP coming back before that is worth a
/// warning, in seconds.
pub const FEEDBACK_TIMEOUT_SECS: u64 = 3;

/// How long to wait for a chunk before servicing the socket again, in milliseconds.
pub const TICK_MILLIS: u64 = 2;

/// Initial chunk-queue capacity: both encoders fully backed up. Within this
/// depth, sends never allocate.
pub const CHUNK_QUEUE_CAPACITY: usize = 64;

/// Why there is no chunk.
#[derive(Clone, Copy, PartialEq, Eq, Structural, Debug)]
pub enum RecvTimeoutError {
    /// None has arrived yet.
    Timeout,
    /// None will arrive: every producer is gone.
    Disconnected,
}

/// The chunks between the encoders and the sender, first in, first out, and
/// how many producers can still add to them.
pub struct ChunkQueue {
    queue: VecDeque<EncodedChunk>,
    senders: u64,
}

/// The waiting chunks, oldest first, and the number of producers.
pub struct QueueView {
    pub chunks: Seq<EncodedChunk>,
    pub senders: u64,
}

impl View for ChunkQueue {
    type V = QueueView;

    closed spec fn view(&self) -> QueueView {
        QueueView { chunks: self.queue@, senders: self.senders }
    }
}

impl ChunkQueue {
    /// An empty queue with one producer.
    pub fn new() -> (queue: ChunkQueue)
        ensures
            queue@ == (QueueView { chunks: Seq::empty(), senders: 1 }),
    {
        ChunkQueue { queue: VecDeque::with_capacity(CHUNK_QUEUE_CAPACITY), senders: 1 }
    }

    pub fn send(&mut self, chunk: EncodedChunk)
        ensures
            final(self)@ == (QueueView { chunks: old(self)@.chunks.push(chunk), ..old(self)@ }),
    {
        self.queue.push_back(chunk);
    }

    /// One more producer.
    pub fn add_sender(&mut self)
        requires
            old(self)@.senders < u64::MAX,
        ensures
            final(self)@ == (QueueView { senders: (old(self)@.senders + 1) as u64, ..old(self)@ }),
    {
        self.senders = self.senders + 1;
    }

    /// One producer less. Says whether it was the last, so that the consumer
    /// can be woken to observe the disconnect.
    pub fn drop_sender(&mut self) -> (last: bool)
        requires
            old(self)@.senders > 0,
        ensures
            final(self)@ == (QueueView { senders: (old(self)@.senders - 1) as u64, ..old(self)@ }),
            last == (final(self)@.senders == 0),
    {
        self.senders = self.senders - 1;
        self.senders == 0
    }

    /// The next chunk. Buffered chunks are drained before a disconnect is
    /// reported.
    pub fn poll(&mut self) -> (next: Result<EncodedChunk, RecvTimeoutError>)
        ensures
            old(self)@.chunks.len() > 0 ==> {
                &&& next == Ok::<EncodedChunk, RecvTimeoutError>(old(self)@.chunks[0])
                &&& final(self)@ == (QueueView {
                    chunks: old(self)@.chunks.drop_first(),
                    ..old(self)@
                })
            },
            old(self)@.chunks.len() == 0 ==> {
                &&& next == Err::<EncodedChunk, RecvTimeoutError>(
                    if old(self)@.senders == 0 {
                        RecvTimeoutError::Disconnected
                    } else {
                        RecvTimeoutError::Timeout
                    },
                )
                &&& final(self)@ == old(self)@
            },
    {
        if let Some(chunk) = self.queue.pop_front() {
            assert(self@.chunks =~= old(self)@.chunks.drop_first());
            return Ok(chunk);
        }
        if self.senders == 0 {
            Err(RecvTimeoutError::Disconnected)
        } else {
            Err(RecvTimeoutError::Timeout)
        }
    }
}

/// What the sender does next in its loop.
#[derive(Clone, Copy, PartialEq, Eq, Structural, Debug)]
pub enum LoopStep {
    /// Leave the loop.
    Stop,
    /// Send the chunk that came, then service the receiver.
    SendChunk,
    /// No chunk came in time; service the receiver.
    Service,
}

/// Decides what the sender does next, from whether it was told to stop and from
/// what came of waiting for a chunk.
pub fn next_step(stop: bool, polled: &Result<EncodedChunk, RecvTimeoutError>) -> (step: LoopStep)
    ensures
        step == if stop {
            LoopStep::Stop
        } else {
            match polled {
                Ok(_) => LoopStep::SendChunk,
                Err(RecvTimeoutError::Timeout) => LoopStep::Service,
                Err(RecvTimeoutError::Disconnected) => LoopStep::Stop,
            }
        },
{
    if stop {
        return LoopStep::Stop;
    }
    match polled {
        Ok(_) => LoopStep::SendChunk,
        Err(RecvTimeoutError::Timeout) => LoopStep::Service,
        Err(RecvTimeoutError::Disconnected) => LoopStep::Stop,
    }
}

/// How the bitrate control loop may move.
pub struct RateControl {
    pub start_bps: u32,
    pub min_bps: u32,
    pub max_bps: u32,
    /// Whether a new bitrate can be applied. Not when the user pinned one: an
    /// explicit setting is honoured rather than adapted away.
    pub set_bitrate: bool,
    /// Whether a new capture size can be applied. Not when the user pinned a
    /// resolution.
    pub set_size: bool,
    /// The rungs the capture may move between, smallest first.
    pub sizes: Vec<(i32, i32)>,
    pub start_size: (i32, i32),
}

/// What a pass of the control loop decides.
#[derive(Clone, Copy, PartialEq, Eq, Debug)]
pub struct RateDecision {
    /// The encoder is to move to this bitrate.
    pub bitrate: Option<u32>,
    /// The resolution ladder is to look at whether the bitrate has run out of
    /// room: downwards, and upwards.
    pub room: Option<(bool, bool)>,
}

/// What became of a chunk that was handed to the sender.
pub struct NextFrame {
    /// The stream that carries it.
    pub stream: usize,
    pub frame: OutboundFrame,
    /// A buffer for its packets.
    pub buffer: Vec<u8>,
    /// This is the first video frame.
    pub first_video: bool,
}

/// What to say about a frame that was sent.
#[derive(Clone, Copy, PartialEq, Eq, Structural, Debug)]
pub struct FrameOutcome {
    /// How many of its packets did not go out.
    pub dropped: u32,
    /// Packets were dropped for the first time.
    pub first_drops: bool,
}

/// The state of the sender.
pub struct SenderView {
    pub streams: Seq<StreamView>,
    /// What the last packet said to the last stream.
    pub events: EventsView,
    pub video_started_at: Option<int>,
    /// The receiver has acknowledged video.
    pub acked: bool,
    pub reported_silence: bool,
    pub reported_drops: bool,
    pub link: EstimatorView,
    pub current_bps: u32,
    pub last_control: int,
}

/// The state of the sender, between its inputs.
pub struct SenderState {
    streams: Vec<Stream>,
    /// Reused across RTCP packets so NACK parsing does not allocate per packet.
    events: ReceiverEvents,
    video_started_at: Option<Instant>,
    /// Tells "not getting our RTP" apart from "getting it but not decoding".
    acked: bool,
    reported_silence: bool,
    reported_drops: bool,
    estimator: BandwidthEstimator,
    current_bps: u32,
    last_control: Instant,
}

impl View for SenderState {
    type V = SenderView;

    closed spec fn view(&self) -> SenderView {
        SenderView {
            streams: views(self.streams@),
            events: self.events@,
            video_started_at: point(self.video_started_at),
            acked: self.acked,
            reported_silence: self.reported_silence,
            reported_drops: self.reported_drops,
            link: self.estimator@,
            current_bps: self.current_bps,
            last_control: self.last_control@,
        }
    }
}

/// The states of some streams.
pub open spec fn views(streams: Seq<Stream>) -> Seq<StreamView> {
    Seq::new(streams.len(), |i: int| streams[i]@)
}

/// The first stream of a kind.
pub open spec fn stream_of(streams: Seq<StreamView>, kind: StreamKind) -> Option<int>
    decreases streams.len(),
{
    if streams.len() == 0 {
        None
    } else {
        match stream_of(streams.drop_last(), kind) {
            Some(at) => Some(at),
            None => if streams.last().config.kind == kind {
                Some(streams.len() - 1)
            } else {
                None
            },
        }
    }
}

/// Whether what the receiver confirms is a first sign that it gets our video.
pub open spec fn first_ack(acked: bool, checkpoint: Option<i64>, kind: StreamKind) -> bool {
    !acked && checkpoint is Some && checkpoint->Some_0 >= 0 && kind == StreamKind::Video
}

impl SenderView {
    /// A sender that has sent nothing.
    pub open spec fn fresh(configs: Seq<StreamConfig>, start_bps: u32, now: int) -> SenderView {
        SenderView {
            streams: Seq::new(configs.len(), |i: int| StreamView::fresh(configs[i])),
            events: EventsView::none(),
            video_started_at: None,
            acked: false,
            reported_silence: false,
            reported_drops: false,
            link: EstimatorView::fresh(now),
            current_bps: start_bps,
            last_control: now,
        }
    }

    /// Whether a chunk is the first video frame to go out.
    pub open spec fn is_first_video(self, kind: StreamKind) -> bool {
        kind == StreamKind::Video && self.video_started_at is None
    }

    /// The sender once it has made ready for a chunk of a kind it carries.
    pub open spec fn begun(self, at: int, kind: StreamKind, now: int) -> SenderView {
        SenderView {
            streams: self.streams.update(at, self.streams[at].begun()),
            video_started_at: if self.is_first_video(kind) {
                Some(now)
            } else {
                self.video_started_at
            },
            ..self
        }
    }

    /// The sender once a frame has been sent on stream `at`.
    pub open spec fn sent(
        self,
        at: int,
        frame_id: u64,
        packets: Seq<Seq<u8>>,
        timestamps: (u32, u64),
        dropped: nat,
        now: int,
    ) -> SenderView {
        SenderView {
            streams: self.streams.update(
                at,
                self.streams[at].sent(frame_id, packets, timestamps),
            ),
            link: EstimatorView {
                sent: self.link.sent.accumulated(
                    (octet_sum(packets) % 0x1_0000_0000) as u64,
                    now,
                ),
                packets: self.link.packets.accumulated(
                    (packets.len() % 0x1_0000_0000) as u64,
                    now,
                ),
                ..self.link
            },
            reported_drops: self.reported_drops || dropped > 0,
            ..self
        }
    }

    /// Whether to say that the receiver stays silent.
    pub open spec fn silence_due(self, now: int) -> bool {
        &&& !self.acked
        &&& !self.reported_silence
        &&& self.video_started_at is Some
        &&& elapsed(self.video_started_at->Some_0, now) >= FEEDBACK_TIMEOUT_SECS * 1_000_000_000
    }

    /// The sender at the start of a compound packet: a round trip that the
    /// packet before measured goes into the link estimate.
    pub open spec fn timed(self) -> SenderView {
        SenderView {
            link: match self.events.round_trip {
                Some(span) => EstimatorView { round_trip: Some(span), ..self.link },
                None => self.link,
            },
            ..self
        }
    }

    /// The sender once the streams before `upto` have seen a compound packet.
    pub open spec fn passed(self, packet: Seq<u8>, ntp: u64, now: int, upto: int) -> SenderView
        decreases upto,
    {
        if upto <= 0 {
            self
        } else {
            let before = self.passed(packet, ntp, now, upto - 1);
            let stream = before.streams[upto - 1];
            let heard = stream.heard(packet, ntp);
            SenderView {
                streams: before.streams.update(upto - 1, stream.after_packet(packet, ntp)),
                events: heard,
                acked: before.acked || first_ack(
                    before.acked,
                    heard.checkpoint,
                    stream.config.kind,
                ),
                link: stream.link_after_packet(packet, ntp, before.link, now),
                ..before
            }
        }
    }

    /// The sender after a compound packet.
    pub open spec fn received(self, packet: Seq<u8>, ntp: u64, now: int) -> SenderView {
        self.timed().passed(packet, ntp, now, self.streams.len() as int)
    }

    /// Whether `response` is what a compound packet asks of stream `at`.
    pub open spec fn answered(
        self,
        packet: Seq<u8>,
        ntp: u64,
        at: int,
        response: StreamResponse,
    ) -> bool {
        let stream = self.streams[at];
        let heard = stream.heard(packet, ntp);
        &&& contents(response.packets@) == stream.after_packet(packet, ntp).all_resent(heard.nacks)
        &&& response.request_keyframe == (heard.picture_loss && stream.config.kind
            == StreamKind::Video)
        &&& response.acknowledged == heard.checkpoint
    }

    /// Whether the control loop is to run.
    pub open spec fn control_due(self, now: int) -> bool {
        elapsed(self.last_control, now) >= CONTROL_INTERVAL_NANOS
    }

    /// The link estimate as the control loop sees it.
    pub open spec fn measured(self, now: int) -> EstimatorView {
        if self.link.window_elapsed(now) {
            self.link.advanced(now)
        } else {
            self.link
        }
    }

    /// What the control loop decides at `now`: nothing between its intervals
    /// and nothing without an estimate of the link.
    pub open spec fn decision(self, control: RateControl, now: int) -> RateDecision {
        if !self.control_due(now) {
            RateDecision { bitrate: None, room: None }
        } else {
            match self.measured(now).estimate(now) {
                None => RateDecision { bitrate: None, room: None },
                Some(estimate) => {
                    let bitrate = if control.set_bitrate {
                        next_bitrate_spec(
                            self.current_bps,
                            estimate,
                            control.min_bps,
                            control.max_bps,
                        )
                    } else {
                        None
                    };
                    let current = match bitrate {
                        Some(next) => next,
                        None => self.current_bps,
                    };
                    RateDecision {
                        bitrate,
                        room: if control.set_size {
                            Some((current <= control.min_bps, current >= control.max_bps))
                        } else {
                            None
                        },
                    }
                },
            }
        }
    }

    /// The sender once the control loop has run.
    pub open spec fn controlled(self, control: RateControl, now: int) -> SenderView {
        if self.control_due(now) {
            SenderView {
                link: self.measured(now),
                last_control: now,
                current_bps: match self.decision(control, now).bitrate {
                    Some(next) => next,
                    None => self.current_bps,
                },
                ..self
            }
        } else {
            self
        }
    }

    /// The sender once the Sender Reports that are due have gone out.
    pub open spec fn reported(self, now: int) -> SenderView {
        SenderView {
            streams: Seq::new(
                self.streams.len(),
                |i: int|
                    if self.streams[i].report_due(now) {
                        StreamView { last_report: Some(now), ..self.streams[i] }
                    } else {
                        self.streams[i]
                    },
            ),
            ..self
        }
    }
}

/// The Sender Reports that the first streams have to send, in their order.
pub open spec fn due_reports_of(streams: Seq<StreamView>, now: int) -> Seq<Seq<u8>>
    decreases streams.len(),
{
    if streams.len() == 0 {
        Seq::empty()
    } else {
        let before = due_reports_of(streams.drop_last(), now);
        if streams.last().report_due(now) {
            before.push(streams.last().report())
        } else {
            before
        }
    }
}

/// The bytes of some Sender Reports.
pub open spec fn report_bytes(reports: Seq<[u8; 28]>) -> Seq<Seq<u8>> {
    Seq::new(reports.len(), |i: int| reports[i]@)
}

impl SenderState {
    /// Every stream keeps its invariant, and so does the link estimate.
    pub closed spec fn wf(&self) -> bool {
        &&& forall|i: int| 0 <= i < self.streams@.len() ==> (#[trigger] self.streams@[i]).wf()
        &&& self.estimator.wf()
    }

    pub fn new(configs: &Vec<StreamConfig>, control: &RateControl, now: Instant) -> (state:
        SenderState)
        ensures
            state.wf(),
            state@ == SenderView::fresh(configs@, control.start_bps, now@),
    {
        let mut streams: Vec<Stream> = Vec::new();
        let mut at: usize = 0;
        while at < configs.len()
            invariant
                at <= configs@.len(),
                streams@.len() == at,
                forall|i: int|
                    0 <= i < at ==> (#[trigger] streams@[i]).wf() && streams@[i]@
                        == StreamView::fresh(configs@[i]),
            decreases configs@.len() - at,
        {
            streams.push(Stream::new(&configs[at]));
            at = at + 1;
        }
        let state = SenderState {
            streams,
            events: ReceiverEvents::default(),
            video_started_at: None,
            acked: false,
            reported_silence: false,
            reported_drops: false,
            estimator: BandwidthEstimator::new(now),
            current_bps: control.start_bps,
            last_control: now,
        };
        assert(state@.streams =~= SenderView::fresh(
            configs@,
            control.start_bps,
            now@,
        ).streams);
        state
    }

    /// Which stream carries chunks of a kind: the first of that kind.
    fn stream_index(&self, kind: StreamKind) -> (index: Option<usize>)
        ensures
            index is Some <==> stream_of(self@.streams, kind) is Some,
            index matches Some(at) ==> at < self@.streams.len() && stream_of(self@.streams, kind)
                == Some(at as int),
    {
        let mut at: usize = 0;
        assert(self@.streams.take(0) =~= Seq::empty());
        while at < self.streams.len()
            invariant
                at <= self.streams@.len(),
                stream_of(self@.streams.take(at as int), kind) is None,
            decreases self.streams@.len() - at,
        {
            assert(self@.streams.take(at + 1).drop_last() =~= self@.streams.take(at as int));
            if self.streams[at].kind() == kind {
                proof {
                    lemma_found_early(self@.streams, kind, at + 1);
                }
                return Some(at);
            }
            at = at + 1;
        }
        assert(self@.streams.take(at as int) =~= self@.streams);
        None
    }

    /// Makes ready to send a chunk: picks its stream, numbers the frame and
    /// hands out a buffer for its packets. `None` when no stream carries the
    /// chunk's kind of media.
    pub fn begin_chunk(&mut self, chunk: &EncodedChunk, playout_delay_ms: u16, now: Instant) -> (next:
        Option<NextFrame>)
        requires
            old(self).wf(),
        ensures
            final(self).wf(),
            match stream_of(old(self)@.streams, chunk.kind) {
                None => next is None && final(self)@ == old(self)@,
                Some(at) => {
                    &&& next matches Some(ready)
                    &&& ready.stream == at
                    &&& 0 <= at < old(self)@.streams.len()
                    &&& ready.frame == old(self)@.streams[at].next_frame(
                        chunk.is_key_frame,
                        chunk.rtp_timestamp,
                        playout_delay_ms,
                    )
                    &&& ready.buffer@ == old(self)@.streams[at].next_buffer()
                    &&& ready.first_video == old(self)@.is_first_video(chunk.kind)
                    &&& final(self)@ == old(self)@.begun(at, chunk.kind, now@)
                },
            },
    {
        let ghost before = *self;
        let at = match self.stream_index(chunk.kind) {
            Some(at) => at,
            None => {
                return None;
            },
        };
        let first_video = chunk.kind == StreamKind::Video && self.video_started_at.is_none();
        if first_video {
            self.video_started_at = Some(now);
        }
        assert(self.streams@[at as int].wf());
        let (frame, buffer) = self.streams[at].begin_frame(chunk, playout_delay_ms);
        assert(self@.streams =~= before@.streams.update(
            at as int,
            before@.streams[at as int].begun(),
        ));
        Some(NextFrame { stream: at, frame, buffer, first_video })
    }

    /// Encrypts the payload of a frame of stream `stream` in place.
    pub fn encrypt(&self, stream: usize, counter: &[u8; 16], payload: &mut Vec<u8>)
        requires
            stream < self@.streams.len(),
        ensures
            final(payload)@ == encrypted(
                self@.streams[stream as int].config.aes_key@,
                counter@,
                old(payload)@,
            ),
    {
        self.streams[stream].encrypt(counter, payload);
    }

    /// Takes note of a frame whose packets were handed to the network: `sent`
    /// says of each packet whether it went.
    pub fn finish_chunk(
        &mut self,
        stream: usize,
        chunk: &EncodedChunk,
        frame_id: u64,
        packets: PacketizedFrame,
        sent: &Vec<bool>,
        now: Instant,
    ) -> (outcome: FrameOutcome)
        requires
            old(self).wf(),
            stream < old(self)@.streams.len(),
            packets.wf(),
            sent@.len() == packets@.len(),
        ensures
            final(self).wf(),
            final(self)@ == old(self)@.sent(
                stream as int,
                frame_id,
                packets@,
                (chunk.rtp_timestamp, chunk.ntp_timestamp),
                unsent(sent@),
                now@,
            ),
            outcome.dropped == if unsent(sent@) <= u32::MAX {
                unsent(sent@)
            } else {
                u32::MAX as nat
            },
            outcome.first_drops == (unsent(sent@) > 0 && !old(self)@.reported_drops),
    {
        let ghost before = *self;
        let ghost bytes = packets@;
        assert(self.streams@[stream as int].wf());
        assert(self@.streams[stream as int] == self.streams@[stream as int]@);
        let (octets_before, packets_before) = self.streams[stream].counters();
        let dropped: u32 = self.streams[stream].finish_frame(chunk, frame_id, packets, sent);
        let (octets_after, packets_after) = self.streams[stream].counters();
        assert(self@.streams =~= before@.streams.update(
            stream as int,
            before@.streams[stream as int].sent(
                frame_id,
                bytes,
                (chunk.rtp_timestamp, chunk.ntp_timestamp),
            ),
        ));
        let octets: u32 = octets_after.wrapping_sub(octets_before);
        let count: u32 = packets_after.wrapping_sub(packets_before);
        self.estimator.on_burst_sent(octets as u64, count as u64, now);
        let first_drops = dropped > 0 && !self.reported_drops;
        if first_drops {
            self.reported_drops = true;
        }
        FrameOutcome { dropped, first_drops }
    }

    /// Whether to say now that no feedback has come back although video is
    /// flowing. Says so once.
    pub fn report_silence(&mut self, now: Instant) -> (due: bool)
        requires
            old(self).wf(),
        ensures
            final(self).wf(),
            due == old(self)@.silence_due(now@),
            final(self)@ == (SenderView {
                reported_silence: old(self)@.reported_silence || due,
                ..old(self)@
            }),
    {
        let ghost before = *self;
        let waited = match self.video_started_at {
            Some(at) => now.saturating_duration_since(at).nanos >= Duration::from_secs(
                FEEDBACK_TIMEOUT_SECS,
            ).nanos,
            None => false,
        };
        let due = !self.acked && !self.reported_silence && waited;
        if due {
            self.reported_silence = true;
        }
        assert(self@.streams =~= before@.streams);
        due
    }

    /// Acts on a compound packet from the receiver: acknowledgements (which
    /// retire history and feed the bandwidth estimate), NACKs and picture-loss
    /// reports. The answers come one for each stream, in order. Round trips are
    /// measured against the wall clock, which is read once for the packet.
    pub fn receive(&mut self, packet: &[u8], now: Instant) -> (responses: Vec<StreamResponse>)
        requires
            old(self).wf(),
        ensures
            final(self).wf(),
            responses@.len() == old(self)@.streams.len(),
            exists|ntp: u64|
                final(self)@ == #[trigger] old(self)@.received(packet@, ntp, now@) && forall|i: int|
                    0 <= i < responses@.len() ==> old(self)@.answered(
                        packet@,
                        ntp,
                        i,
                        #[trigger] responses@[i],
                    ),
    {
        let ntp: u64 = ntp_now();
        self.receive_at(packet, ntp, now)
    }

    /// Acts on a compound packet that arrived when the wall clock read `ntp`.
    pub fn receive_at(&mut self, packet: &[u8], ntp: u64, now: Instant) -> (responses: Vec<
        StreamResponse,
    >)
        requires
            old(self).wf(),
        ensures
            final(self).wf(),
            final(self)@ == old(self)@.received(packet@, ntp, now@),
            responses@.len() == old(self)@.streams.len(),
            forall|i: int|
                0 <= i < responses@.len() ==> old(self)@.answered(
                    packet@,
                    ntp,
                    i,
                    #[trigger] responses@[i],
                ),
    {
        let ghost before = *self;
        if let Some(span) = self.events.round_trip {
            self.estimator.on_round_trip(span);
        }
        assert(self@.streams =~= before@.streams);
        let ghost start = self@;
        assert(start == before@.timed());
        let mut responses: Vec<StreamResponse> = Vec::new();
        let mut at: usize = 0;
        while at < self.streams.len()
            invariant
                self.wf(),
                at <= self.streams@.len(),
                self.streams@.len() == before@.streams.len(),
                start == before@.timed(),
                responses@.len() == at,
                self@ == start.passed(packet@, ntp, now@, at as int),
                forall|i: int|
                    at <= i < self.streams@.len() ==> (#[trigger] self@.streams[i])
                        == before@.streams[i],
                forall|i: int|
                    0 <= i < at ==> before@.answered(packet@, ntp, i, #[trigger] responses@[i]),
            decreases self.streams@.len() - at,
        {
            let ghost earlier = *self;
            assert(self.streams@[at as int].wf());
            assert(self@.streams[at as int] == before@.streams[at as int]);
            let kind = self.streams[at].kind();
            let response = self.streams[at].receive_at(
                packet,
                ntp,
                now,
                &mut self.events,
                &mut self.estimator,
            );
            if !self.acked && kind == StreamKind::Video {
                if let Some(checkpoint) = response.acknowledged {
                    if checkpoint >= 0 {
                        self.acked = true;
                    }
                }
            }
            proof {
                assert(self@.streams =~= earlier@.streams.update(
                    at as int,
                    earlier@.streams[at as int].after_packet(packet@, ntp),
                ));
                assert(self@ == start.passed(packet@, ntp, now@, at + 1));
            }
            responses.push(response);
            at = at + 1;
        }
        responses
    }

    /// Moves the encoder bitrate towards what the link is actually carrying,
    /// and has the capture resolution looked at when the bitrate alone cannot
    /// close the gap.
    pub fn control_rate(&mut self, control: &RateControl, now: Instant) -> (decision: RateDecision)
        requires
            old(self).wf(),
        ensures
            final(self).wf(),
            decision == old(self)@.decision(*control, now@),
            final(self)@ == old(self)@.controlled(*control, now@),
    {
        let ghost before = *self;
        if now.saturating_duration_since(self.last_control).nanos < CONTROL_INTERVAL_NANOS as u128 {
            return RateDecision { bitrate: None, room: None };
        }
        self.last_control = now;
        let measured = self.estimator.estimate_bps(now);
        assert(self@.streams =~= before@.streams);
        let estimate: u32 = match measured {
            Some(estimate) => estimate,
            None => {
                return RateDecision { bitrate: None, room: None };
            },
        };
        let mut bitrate: Option<u32> = None;
        if control.set_bitrate {
            bitrate = next_bitrate(self.current_bps, estimate, control.min_bps, control.max_bps);
            if let Some(next) = bitrate {
                self.current_bps = next;
            }
        }
        let room = if control.set_size {
            Some((self.current_bps <= control.min_bps, self.current_bps >= control.max_bps))
        } else {
            None
        };
        RateDecision { bitrate, room }
    }

    /// The Sender Reports to send now, in the order of the streams.
    pub fn due_reports(&mut self, now: Instant) -> (reports: Vec<[u8; 28]>)
        requires
            old(self).wf(),
        ensures
            final(self).wf(),
            final(self)@ == old(self)@.reported(now@),
            report_bytes(reports@) == due_reports_of(old(self)@.streams, now@),
    {
        let ghost before = *self;
        let mut reports: Vec<[u8; 28]> = Vec::new();
        let mut at: usize = 0;
        assert(before@.streams.take(0) =~= Seq::empty());
        assert(report_bytes(reports@) =~= Seq::empty());
        while at < self.streams.len()
            invariant
                self.wf(),
                at <= self.streams@.len(),
                self.streams@.len() == before@.streams.len(),
                self@ == (SenderView { streams: self@.streams, ..before@ }),
                forall|i: int|
                    0 <= i < at ==> (#[trigger] self@.streams[i]) == before@.reported(
                        now@,
                    ).streams[i],
                forall|i: int|
                    at <= i < self.streams@.len() ==> (#[trigger] self@.streams[i])
                        == before@.streams[i],
                report_bytes(reports@) == due_reports_of(
                    before@.streams.take(at as int),
                    now@,
                ),
            decreases self.streams@.len() - at,
        {
            let ghost earlier = *self;
            let ghost so_far = reports@;
            assert(self.streams@[at as int].wf());
            assert(self@.streams[at as int] == before@.streams[at as int]);
            let due = self.streams[at].due_report(now);
            proof {
                assert(before@.streams.take(at + 1).drop_last() =~= before@.streams.take(
                    at as int,
                ));
                assert(forall|i: int|
                    0 <= i < self.streams@.len() && i != at ==> (#[trigger] self@.streams[i])
                        == earlier@.streams[i]);
            }
            if let Some(report) = due {
                reports.push(report);
                assert(report_bytes(reports@) =~= report_bytes(so_far).push(report@));
            }
            at = at + 1;
        }
        proof {
            assert(before@.streams.take(at as int) =~= before@.streams);
            assert(self@.streams =~= before@.reported(now@).streams);
        }
        reports
    }
}

/// What is found among the first streams is found among all.
proof fn lemma_found_early(streams: Seq<StreamView>, kind: StreamKind, upto: int)
    requires
        0 <= upto <= streams.len(),
        stream_of(streams.take(upto), kind) is Some,
    ensures
        stream_of(streams, kind) == stream_of(streams.take(upto), kind),
    decreases streams.len() - upto,
{
    if upto < streams.len() {
        assert(streams.take(upto + 1).drop_last() =~= streams.take(upto));
        lemma_found_early(streams, kind, upto + 1);
    } else {
        assert(streams.take(upto) =~= streams);
    }
}

/// A bitrate that the user pinned is never adapted away.
pub proof fn law_pinned_bitrate_stays(state: SenderView, control: RateControl, now: int)
    requires
        !control.set_bitrate,
    ensures
        state.decision(control, now).bitrate is None,
        state.controlled(control, now).current_bps == state.current_bps,
{
}

/// A resolution that the user pinned is never looked at.
pub proof fn law_pinned_size_stays(state: SenderView, control: RateControl, now: int)
    requires
        !control.set_size,
    ensures
        state.decision(control, now).room is None,
{
}

/// Every bitrate the control loop picks lies in the range it may move in.
pub proof fn law_control_stays_in_range(state: SenderView, control: RateControl, now: int)
    requires
        control.min_bps <= control.max_bps,
    ensures
        state.decision(control, now).bitrate matches Some(next) ==> control.min_bps <= next
            <= control.max_bps,
        control.min_bps <= state.current_bps <= control.max_bps ==> control.min_bps
            <= state.controlled(control, now).current_bps <= control.max_bps,
{
}

/// Without an estimate of the link, the control loop changes nothing.
pub proof fn law_no_control_without_an_estimate(state: SenderView, control: RateControl, now: int)
    requires
        state.measured(now).estimate(now) is None,
    ensures
        state.decision(control, now) == (RateDecision { bitrate: None, room: None }),
        state.controlled(control, now).current_bps == state.current_bps,
{
}

/// The control loop decides at most once in each interval.
pub proof fn law_control_is_paced(state: SenderView, control: RateControl, now: int, later: int)
    requires
        state.control_due(now),
        later - now < CONTROL_INTERVAL_NANOS,
    ensures
        state.controlled(control, now).decision(control, later) == (RateDecision {
            bitrate: None,
            room: None,
        }),
        state.controlled(control, now).controlled(control, later) == state.controlled(
            control,
            now,
        ),
{
}

/// The silence of a receiver is reported at most once, and not at all once the
/// receiver has acknowledged video.
pub proof fn law_silence_is_reported_once(state: SenderView, now: int, later: int)
    ensures
        state.silence_due(now) ==> !(SenderView { reported_silence: true, ..state }).silence_due(
            later,
        ),
        state.acked ==> !state.silence_due(now),
{
}

/// A stream hears a compound packet for itself: what the other streams make of
/// it does not matter, and neither does their order.
pub proof fn law_streams_hear_for_themselves(
    state: SenderView,
    packet: Seq<u8>,
    ntp: u64,
    now: int,
    at: int,
)
    requires
        0 <= at < state.streams.len(),
    ensures
        state.received(packet, ntp, now).streams.len() == state.streams.len(),
        state.received(packet, ntp, now).streams[at] == state.streams[at].after_packet(packet, ntp),
{
    lemma_passed(state.timed(), packet, ntp, now, state.streams.len() as int);
}

proof fn lemma_passed(state: SenderView, packet: Seq<u8>, ntp: u64, now: int, upto: int)
    requires
        0 <= upto <= state.streams.len(),
    ensures
        ({
            let after = state.passed(packet, ntp, now, upto);
            &&& after.streams.len() == state.streams.len()
            &&& forall|i: int|
                0 <= i < upto ==> (#[trigger] after.streams[i]) == state.streams[i].after_packet(
                    packet,
                    ntp,
                )
            &&& forall|i: int|
                upto <= i < state.streams.len() ==> (#[trigger] after.streams[i])
                    == state.streams[i]
            &&& after.link.sent == state.link.sent
            &&& after.link.packets == state.link.packets
            &&& after.link.round_trip == state.link.round_trip
            &&& after.link.started == state.link.started
            &&& after.current_bps == state.current_bps
            &&& after.last_control == state.last_control
            &&& after.video_started_at == state.video_started_at
            &&& after.reported_silence == state.reported_silence
            &&& after.reported_drops == state.reported_drops
            &&& state.acked ==> after.acked
        }),
    decreases upto,
{
    if upto > 0 {
        lemma_passed(state, packet, ntp, now, upto - 1);
        let before = state.passed(packet, ntp, now, upto - 1);
        let stream = before.streams[upto - 1];
        if let Some(frame) = stream.heard(packet, ntp).checkpoint {
            law_acknowledging_is_not_sending(stream.checkpointed(frame), before.link, now);
        }
    }
}

/// Receiving counts nothing as sent, leaves the bitrate and its control alone,
/// and what it knows of the round trip is what the packet before measured, or
/// still the last that was known.
pub proof fn law_receiving_only_confirms(state: SenderView, packet: Seq<u8>, ntp: u64, now: int)
    ensures
        state.received(packet, ntp, now).link.sent == state.link.sent,
        state.received(packet, ntp, now).link.packets == state.link.packets,
        state.received(packet, ntp, now).link.started == state.link.started,
        state.received(packet, ntp, now).current_bps == state.current_bps,
        state.received(packet, ntp, now).last_control == state.last_control,
        state.received(packet, ntp, now).video_started_at == state.video_started_at,
        state.received(packet, ntp, now).reported_silence == state.reported_silence,
        state.received(packet, ntp, now).reported_drops == state.reported_drops,
        state.received(packet, ntp, now).link.round_trip == match state.events.round_trip {
            Some(span) => Some(span),
            None => state.link.round_trip,
        },
        state.acked ==> state.received(packet, ntp, now).acked,
{
    lemma_passed(state.timed(), packet, ntp, now, state.streams.len() as int);
}

/// A chunk is carried by a stream of its own kind, and only when there is none
/// it is not carried at all.
pub proof fn law_chunks_go_to_their_kind(streams: Seq<StreamView>, kind: StreamKind)
    ensures
        match stream_of(streams, kind) {
            Some(at) => {
                &&& 0 <= at < streams.len()
                &&& streams[at].config.kind == kind
                &&& forall|i: int|
                    0 <= i < at ==> (#[trigger] streams[i]).config.kind != kind
            },
            None => forall|i: int|
                0 <= i < streams.len() ==> (#[trigger] streams[i]).config.kind != kind,
        },
    decreases streams.len(),
{
    if streams.len() > 0 {
        let rest = streams.drop_last();
        law_chunks_go_to_their_kind(rest, kind);
        assert forall|i: int| 0 <= i < rest.len() implies (#[trigger] streams[i]) == rest[i] by {}
    }
}

/// A frame that was sent is the last of its stream's history, and no other
/// stream changes.
pub proof fn law_sending_touches_one_stream(
    state: SenderView,
    at: int,
    other: int,
    frame_id: u64,
    packets: Seq<Seq<u8>>,
    timestamps: (u32, u64),
    dropped: nat,
    now: int,
)
    requires
        0 <= at < state.streams.len(),
        0 <= other < state.streams.len(),
        other != at,
    ensures
        ({
            let after = state.sent(at, frame_id, packets, timestamps, dropped, now);
            &&& after.streams[at].history.last() == (SentView { frame_id, packets })
            &&& after.streams[other] == state.streams[other]
            &&& after.link.confirmed == state.link.confirmed
        }),
{
}

/// A frame that was sent counts for the link, at its moment, with every packet it
/// took and every byte of them, whether or not they all went out. It is the
/// newest of its stream's history; no other stream changes, and neither does
/// anything else that the sender knows. The packets that did not go out are
/// told, and marked when they are the first.
pub proof fn law_sent_frames_count_for_the_link(
    state: &mut SenderState,
    stream: usize,
    chunk: &EncodedChunk,
    frame_id: u64,
    packets: PacketizedFrame,
    sent: &Vec<bool>,
    now: Instant,
    outcome: FrameOutcome,
    started: int,
    calls: Seq<LinkEvent>,
)
    requires
        call_ensures(
            SenderState::finish_chunk,
            (state, stream, chunk, frame_id, packets, sent, now),
            outcome,
        ),
        stream < old(state)@.streams.len(),
        old(state)@.link == link_after(started, calls),
        packets@.len() <= u32::MAX,
        packets@.flatten().len() <= u32::MAX,
        sent@.len() == packets@.len(),
    ensures
        ({
            let before = old(state)@;
            let after = final(state)@;
            let dropped = sent@.to_multiset().count(false);
            &&& after.link == link_after(
                started,
                calls.push(
                    LinkEvent::Sent(
                        packets@.flatten().len() as u64,
                        packets@.len() as u64,
                        now@,
                    ),
                ),
            )
            &&& after.streams.len() == before.streams.len()
            &&& after.streams[stream as int].history.last() == (SentView {
                frame_id,
                packets: packets@,
            })
            &&& after.streams[stream as int].last_timestamps == Some(
                (chunk.rtp_timestamp, chunk.ntp_timestamp),
            )
            &&& (after.streams[stream as int].packet_count
                - before.streams[stream as int].packet_count - packets@.len()) % 0x1_0000_0000
                == 0
            &&& (after.streams[stream as int].octet_count
                - before.streams[stream as int].octet_count - packets@.flatten().len())
                % 0x1_0000_0000 == 0
            &&& forall|i: int|
                0 <= i < before.streams.len() && i != stream ==> #[trigger] after.streams[i]
                    == before.streams[i]
            &&& outcome.dropped == dropped
            &&& outcome.first_drops <==> dropped > 0 && !before.reported_drops
            &&& after.reported_drops <==> dropped > 0 || before.reported_drops
            &&& after.events == before.events
            &&& after.video_started_at == before.video_started_at
            &&& after.acked == before.acked
            &&& after.reported_silence == before.reported_silence
            &&& after.current_bps == before.current_bps
            &&& after.last_control == before.last_control
        }),
{
    let bytes = packets@.flatten().len();
    lemma_packets_fit(packets@);
    lemma_octets(packets@);
    law_dropped_packets_are_those_that_did_not_go(sent@);
    let more = calls.push(LinkEvent::Sent(bytes as u64, packets@.len() as u64, now@));
    assert(more.drop_last() =~= calls);
}

/// No packet is longer than all of them.
proof fn lemma_packets_fit(packets: Seq<Seq<u8>>)
    ensures
        forall|i: int|
            0 <= i < packets.len() ==> (#[trigger] packets[i]).len() <= packets.flatten().len(),
{
    packets.lemma_flatten_and_flatten_alt_are_equivalent();
    assert forall|i: int| 0 <= i < packets.len() implies (#[trigger] packets[i]).len()
        <= packets.flatten().len() by {
        packets.lemma_flatten_length_ge_single_element_length(i);
    }
}

/// A frame as it is handed to the network: its stream, its id, its packets, its
/// timestamps, how many packets did not go out, and when.
pub struct HandedOut {
    pub stream: int,
    pub frame_id: u64,
    pub packets: Seq<Seq<u8>>,
    pub timestamps: (u32, u64),
    pub dropped: nat,
    pub at: int,
}

/// The sender once some frames have been sent.
pub open spec fn after_frames(state: SenderView, frames: Seq<HandedOut>) -> SenderView
    decreases frames.len(),
{
    if frames.len() == 0 {
        state
    } else {
        let frame = frames.last();
        after_frames(state, frames.drop_last()).sent(
            frame.stream,
            frame.frame_id,
            frame.packets,
            frame.timestamps,
            frame.dropped,
            frame.at,
        )
    }
}

/// How many packets the frames took that were sent in some slots of the clock.
pub open spec fn packets_sent_in(
    frames: Seq<HandedOut>,
    started: int,
    from: int,
    to: int,
) -> nat
    decreases frames.len(),
{
    if frames.len() == 0 {
        0
    } else {
        let before = packets_sent_in(frames.drop_last(), started, from, to);
        if from <= slot_at(started, frames.last().at) <= to {
            before + frames.last().packets.len()
        } else {
            before
        }
    }
}

/// The link of a sender that sent some frames has seen each of them as a burst.
pub open spec fn bursts(frames: Seq<HandedOut>) -> Seq<LinkEvent> {
    Seq::new(
        frames.len(),
        |i: int|
            LinkEvent::Sent(
                frames[i].packets.flatten().len() as u64,
                frames[i].packets.len() as u64,
                frames[i].at,
            ),
    )
}

proof fn lemma_bursts(state: SenderView, started: int, frames: Seq<HandedOut>)
    requires
        state.link == link_after(started, Seq::empty()),
        forall|i: int|
            0 <= i < frames.len() ==> (#[trigger] frames[i]).packets.len() <= u32::MAX
                && frames[i].packets.flatten().len() <= u32::MAX,
    ensures
        after_frames(state, frames).link == link_after(started, bursts(frames)),
        forall|from: int, to: int| #[trigger]
            counted(packet_samples(bursts(frames)), started, from, to) == packets_sent_in(
                frames,
                started,
                from,
                to,
            ),
    decreases frames.len(),
{
    if frames.len() > 0 {
        let rest = frames.drop_last();
        let frame = frames.last();
        assert forall|i: int| 0 <= i < rest.len() implies (#[trigger] rest[i]).packets.len()
            <= u32::MAX && rest[i].packets.flatten().len() <= u32::MAX by {
            assert(rest[i] == frames[i]);
        }
        assert(frame == frames[frames.len() - 1]);
        lemma_bursts(state, started, rest);
        lemma_packets_fit(frame.packets);
        lemma_octets(frame.packets);
        assert(bursts(frames).drop_last() =~= bursts(rest));
        let samples = packet_samples(bursts(frames));
        assert(samples.drop_last() =~= packet_samples(bursts(rest)));
        assert forall|from: int, to: int| #[trigger]
            counted(samples, started, from, to) == packets_sent_in(frames, started, from, to) by {
            assert(counted(packet_samples(bursts(rest)), started, from, to) == packets_sent_in(
                rest,
                started,
                from,
                to,
            ));
        }
    } else {
        assert(bursts(frames) =~= Seq::empty());
    }
}

/// Whatever frames a new sender sends, in whatever streams, the packets that its
/// link counts for the window up to `now` are the packets of the frames that
/// were sent in that window.
pub proof fn law_the_link_counts_every_packet_sent(
    state: SenderView,
    started: int,
    frames: Seq<HandedOut>,
    now: int,
)
    requires
        state.link == link_after(started, Seq::empty()),
        started <= now,
        forall|i: int|
            0 <= i < frames.len() ==> (#[trigger] frames[i]).packets.len() <= u32::MAX
                && frames[i].packets.flatten().len() <= u32::MAX && frames[i].at <= now,
        kept_up(started, bursts(frames)),
        slices_between(after_frames(state, frames).link.packets.head_started, now) <= u32::MAX,
        packets_sent_in(frames, started, slot_at(started, now) - 255, slot_at(started, now))
            <= u64::MAX,
    ensures
        after_frames(state, frames).link.packets.advanced(now).sum() == packets_sent_in(
            frames,
            started,
            slot_at(started, now) - 255,
            slot_at(started, now),
        ),
{
    lemma_bursts(state, started, frames);
    let calls = bursts(frames);
    assert forall|i: int| 0 <= i < calls.len() implies match #[trigger] calls[i] {
        LinkEvent::Sent(_, _, at) => at <= now,
        LinkEvent::Confirmed(_, at) => at <= now,
        LinkEvent::RoundTrip(_) => true,
        LinkEvent::Asked(at) => at <= now,
    } by {
        assert(frames[i].at <= now);
    }
    lemma_link_counts_packets(started, calls, now);
}

/// A sender starts with its streams, in their order, with no calls on its link,
/// and with the bitrate it is told to start from.
pub proof fn law_a_sender_starts_empty(
    configs: &Vec<StreamConfig>,
    control: &RateControl,
    now: Instant,
    state: SenderState,
)
    requires
        call_ensures(SenderState::new, (configs, control, now), state),
    ensures
        state@.streams.len() == configs@.len(),
        forall|i: int|
            0 <= i < configs@.len() ==> (#[trigger] state@.streams[i]).config == configs@[i]
                && state@.streams[i].next_frame_id == 0 && state@.streams[i].checkpoint == -1
                && state@.streams[i].history.len() == 0 && state@.streams[i].packet_count == 0
                && state@.streams[i].octet_count == 0,
        state@.link == link_after(now@, Seq::empty()),
        state@.current_bps == control.start_bps,
        state@.last_control == now@,
        state@.video_started_at is None,
        !state@.acked && !state@.reported_silence && !state@.reported_drops,
        state@.events.round_trip is None,
{
}

/// A chunk goes to the first stream of its kind and is given that stream's next
/// number; a chunk that no stream carries changes nothing. The first video frame
/// starts the clock for the receiver's feedback.
pub proof fn law_chunks_begin_on_their_stream(
    state: &mut SenderState,
    chunk: &EncodedChunk,
    playout_delay_ms: u16,
    now: Instant,
    next: Option<NextFrame>,
)
    requires
        call_ensures(SenderState::begin_chunk, (state, chunk, playout_delay_ms, now), next),
    ensures
        ({
            let before = old(state)@;
            let after = final(state)@;
            &&& next is Some <==> exists|i: int|
                0 <= i < before.streams.len() && (#[trigger] before.streams[i]).config.kind
                    == chunk.kind
            &&& next is None ==> after == before
            &&& next matches Some(ready) ==> {
                let at = ready.stream as int;
                let first = chunk.kind is Video && before.video_started_at is None;
                &&& at < before.streams.len()
                &&& before.streams[at].config.kind == chunk.kind
                &&& forall|i: int|
                    0 <= i < at ==> (#[trigger] before.streams[i]).config.kind != chunk.kind
                &&& ready.frame.frame_id == before.streams[at].next_frame_id
                &&& ready.frame.is_key_frame == chunk.is_key_frame
                &&& ready.frame.rtp_timestamp == chunk.rtp_timestamp
                &&& before.streams[at].next_frame_id < u64::MAX ==> after.streams[at].next_frame_id
                    == before.streams[at].next_frame_id + 1
                &&& ready.first_video <==> first
                &&& after.video_started_at == if first {
                    Some(now@)
                } else {
                    before.video_started_at
                }
                &&& after.streams.len() == before.streams.len()
                &&& forall|i: int|
                    0 <= i < before.streams.len() && i != at ==> #[trigger] after.streams[i]
                        == before.streams[i]
                &&& after.link == before.link
                &&& after.acked == before.acked
                &&& after.current_bps == before.current_bps
                &&& after.last_control == before.last_control
            }
        }),
{
    law_chunks_go_to_their_kind(old(state)@.streams, chunk.kind);
}

/// Frames of a stream are encrypted with that stream's key.
pub proof fn law_frames_are_encrypted_with_their_streams_key(
    state: &SenderState,
    stream: usize,
    counter: &[u8; 16],
    payload: &mut Vec<u8>,
    at: int,
)
    requires
        call_ensures(SenderState::encrypt, (state, stream, counter, payload), ()),
        stream < state@.streams.len(),
        0 <= at < old(payload)@.len(),
    ensures
        final(payload)@.len() == old(payload)@.len(),
        final(payload)@[at] == old(payload)@[at] ^ aes_ctr_keystream(
            state@.streams[stream as int].config.aes_key@,
            counter@,
            at,
        ),
{
}

/// Silence is reported three seconds into the video, once, and only as long as
/// the receiver has not confirmed any of it.
pub proof fn law_silence_is_reported_after_three_seconds(
    state: &mut SenderState,
    now: Instant,
    due: bool,
)
    requires
        call_ensures(SenderState::report_silence, (state, now), due),
    ensures
        due <==> !old(state)@.acked && !old(state)@.reported_silence && (
        old(state)@.video_started_at matches Some(at) && now@ - at >= 3_000_000_000),
        final(state)@.reported_silence <==> old(state)@.reported_silence || due,
        final(state)@ == (SenderView {
            reported_silence: final(state)@.reported_silence,
            ..old(state)@
        }),
{
}

/// The calls on the link that a compound packet makes for the streams before
/// `upto`: the confirmations of the frames that each of them retires.
pub open spec fn confirmations_of(
    before: Seq<StreamView>,
    after: Seq<StreamView>,
    now: int,
    upto: int,
) -> Seq<LinkEvent>
    decreases upto,
{
    if upto <= 0 {
        Seq::empty()
    } else {
        confirmations_of(before, after, now, upto - 1) + confirmations(
            before[upto - 1].history,
            before[upto - 1].history.len() - after[upto - 1].history.len(),
            now,
        )
    }
}

proof fn lemma_confirmations_agree(
    before: Seq<StreamView>,
    after: Seq<StreamView>,
    other: Seq<StreamView>,
    now: int,
    upto: int,
)
    requires
        0 <= upto <= before.len(),
        after.len() == before.len(),
        other.len() == before.len(),
        forall|i: int| 0 <= i < upto ==> #[trigger] after[i] == other[i],
    ensures
        confirmations_of(before, after, now, upto) == confirmations_of(before, other, now, upto),
    decreases upto,
{
    if upto > 0 {
        lemma_confirmations_agree(before, after, other, now, upto - 1);
        assert(after[upto - 1] == other[upto - 1]);
    }
}

proof fn lemma_link_passed(
    state: SenderView,
    packet: Seq<u8>,
    ntp: u64,
    now: int,
    upto: int,
    started: int,
    calls: Seq<LinkEvent>,
)
    requires
        0 <= upto <= state.streams.len(),
        state.link == link_after(started, calls),
    ensures
        ({
            let after = state.passed(packet, ntp, now, upto);
            &&& after.link == link_after(
                started,
                calls + confirmations_of(state.streams, after.streams, now, upto),
            )
            &&& after.acked <==> state.acked || exists|i: int|
                0 <= i < upto && (#[trigger] state.streams[i]).config.kind is Video && (
                state.streams[i].heard(packet, ntp).checkpoint matches Some(frame) && frame >= 0)
        }),
    decreases upto,
{
    lemma_passed(state, packet, ntp, now, upto);
    if upto > 0 {
        lemma_passed(state, packet, ntp, now, upto - 1);
        lemma_link_passed(state, packet, ntp, now, upto - 1, started, calls);
        let before = state.passed(packet, ntp, now, upto - 1);
        let after = state.passed(packet, ntp, now, upto);
        let stream = state.streams[upto - 1];
        assert(before.streams[upto - 1] == stream);
        let so_far = calls + confirmations_of(state.streams, before.streams, now, upto - 1);
        lemma_confirmations_agree(
            state.streams,
            before.streams,
            after.streams,
            now,
            upto - 1,
        );
        let n = stream.history.len() - after.streams[upto - 1].history.len();
        match stream.heard(packet, ntp).checkpoint {
            Some(frame) => {
                lemma_retiring(stream.checkpointed(frame), before.link, started, so_far, now);
            },
            None => {
                assert(so_far + confirmations(stream.history, 0, now) =~= so_far);
            },
        }
        assert(so_far + confirmations(stream.history, n, now) =~= calls + confirmations_of(
            state.streams,
            after.streams,
            now,
            upto,
        ));
        let video = stream.config.kind is Video && (stream.heard(packet, ntp).checkpoint matches
            Some(frame) && frame >= 0);
        assert(after.acked <==> before.acked || video);
        if before.acked && !state.acked {
            let i = choose|i: int|
                0 <= i < upto - 1 && (#[trigger] state.streams[i]).config.kind is Video && (
                state.streams[i].heard(packet, ntp).checkpoint matches Some(frame) && frame >= 0);
            assert(state.streams[i].config.kind is Video);
        }
    } else {
        assert(calls + confirmations_of(state.streams, state.streams, now, 0) =~= calls);
    }
}

/// What a compound packet does to the sender. Each stream reads it for itself and
/// is answered for itself, in the order of the streams. The link sees the round
/// trip that the packet before measured, and then the bytes of every frame that
/// is confirmed. The receiver counts as heard once it confirms a video frame.
pub proof fn law_feedback_reaches_every_stream(
    state: &mut SenderState,
    packet: &[u8],
    ntp: u64,
    now: Instant,
    responses: Vec<StreamResponse>,
    started: int,
    calls: Seq<LinkEvent>,
)
    requires
        call_ensures(SenderState::receive_at, (state, packet, ntp, now), responses),
        old(state)@.link == link_after(started, calls),
    ensures
        ({
            let before = old(state)@;
            let after = final(state)@;
            let timed = match before.events.round_trip {
                Some(span) => calls.push(LinkEvent::RoundTrip(span)),
                None => calls,
            };
            &&& responses@.len() == before.streams.len()
            &&& after.streams.len() == before.streams.len()
            &&& forall|i: int|
                0 <= i < before.streams.len() ==> {
                    let stream = #[trigger] before.streams[i];
                    let told = after_compound(
                        packet@,
                        stream.config.ssrc,
                        stream.checkpoint,
                        ntp,
                        EventsView::none(),
                    );
                    &&& responses@[i].acknowledged == told.checkpoint
                    &&& responses@[i].request_keyframe <==> told.picture_loss && stream.config.kind
                        is Video
                    &&& after.streams[i] == stream.acknowledged(told.checkpoint)
                    &&& contents(responses@[i].packets@) == after.streams[i].all_resent(told.nacks)
                }
            &&& after.link == link_after(
                started,
                timed + confirmations_of(
                    before.streams,
                    after.streams,
                    now@,
                    before.streams.len() as int,
                ),
            )
            &&& after.acked <==> before.acked || exists|i: int|
                0 <= i < before.streams.len() && (#[trigger] before.streams[i]).config.kind is Video
                    && (responses@[i].acknowledged matches Some(frame) && frame >= 0)
            &&& before.streams.len() > 0 ==> after.events.round_trip == after_compound(
                packet@,
                before.streams.last().config.ssrc,
                before.streams.last().checkpoint,
                ntp,
                EventsView::none(),
            ).round_trip
        }),
{
    let before = old(state)@;
    let after = final(state)@;
    let all = before.streams.len() as int;
    let timed = match before.events.round_trip {
        Some(span) => calls.push(LinkEvent::RoundTrip(span)),
        None => calls,
    };
    assert(before.timed().link == link_after(started, timed)) by {
        if let Some(span) = before.events.round_trip {
            assert(timed.drop_last() =~= calls);
        }
    }
    lemma_passed(before.timed(), packet@, ntp, now@, all);
    lemma_link_passed(before.timed(), packet@, ntp, now@, all, started, timed);
    assert forall|i: int| 0 <= i < all implies before.answered(
        packet@,
        ntp,
        i,
        #[trigger] responses@[i],
    ) by {}
    if all > 0 {
        lemma_passed(before.timed(), packet@, ntp, now@, all - 1);
    }
    if after.acked && !before.acked {
        let i = choose|i: int|
            0 <= i < all && (#[trigger] before.streams[i]).config.kind is Video && (
            before.streams[i].heard(packet@, ntp).checkpoint matches Some(frame) && frame >= 0);
        assert(before.answered(packet@, ntp, i, responses@[i]));
    }
    assert forall|i: int|
        0 <= i < all && (#[trigger] before.streams[i]).config.kind is Video && (
        responses@[i].acknowledged matches Some(frame) && frame >= 0) implies after.acked by {
        assert(before.answered(packet@, ntp, i, responses@[i]));
        assert(before.timed().streams[i] == before.streams[i]);
    }
}

/// What the control loop does. It decides at most twice a second, and only with
/// an estimate of what its link has seen. A bitrate that may be set follows that
/// estimate. A size that may be set is looked at with whether the bitrate then
/// stands at its floor, and whether it stands at its ceiling.
pub proof fn law_control_follows_the_link(
    state: &mut SenderState,
    control: &RateControl,
    now: Instant,
    decision: RateDecision,
    started: int,
    calls: Seq<LinkEvent>,
)
    requires
        call_ensures(SenderState::control_rate, (state, control, now), decision),
        old(state)@.link == link_after(started, calls),
        i128::MIN <= started <= now@,
        none_after(calls, now@),
        kept_up(started, calls.push(LinkEvent::Asked(now@))),
    ensures
        ({
            let before = old(state)@;
            let after = final(state)@;
            if now@ - before.last_control < 500_000_000 {
                decision.bitrate is None && decision.room is None && after == before
            } else {
                &&& after.last_control == now@
                &&& after.link == link_after(started, calls.push(LinkEvent::Asked(now@)))
                &&& after.streams == before.streams
                &&& after.current_bps == match decision.bitrate {
                    Some(bps) => bps,
                    None => before.current_bps,
                }
                &&& exists|estimate: Option<u32>| #[trigger]
                    comes_to(started, calls, now@, estimate) && match estimate {
                        Some(bps) => {
                            &&& control.set_bitrate ==> is_next_bitrate(
                                before.current_bps,
                                bps,
                                control.min_bps,
                                control.max_bps,
                                decision.bitrate,
                            )
                            &&& !control.set_bitrate ==> decision.bitrate is None
                            &&& decision.room == if control.set_size {
                                Some(
                                    (
                                        after.current_bps <= control.min_bps,
                                        after.current_bps >= control.max_bps,
                                    ),
                                )
                            } else {
                                None
                            }
                        },
                        None => decision.bitrate is None && decision.room is None,
                    }
            }
        }),
{
    let before = old(state)@;
    let asked = calls.push(LinkEvent::Asked(now@));
    assert(asked.drop_last() =~= calls);
    law_the_estimate_follows_from_the_window(started, calls, now@);
    let estimate = before.measured(now@).estimate(now@);
    assert(before.measured(now@) == link_after(started, asked));
    assert(comes_to(started, calls, now@, estimate));
    if let Some(bps) = estimate {
        lemma_next_bitrate(before.current_bps, bps, control.min_bps, control.max_bps);
    }
}

/// The reports that go out are those of the streams that owe one, each its own,
/// in the order of the streams; these streams have then reported, and the others
/// have not.
pub proof fn law_streams_report_when_they_owe(
    state: &mut SenderState,
    now: Instant,
    reports: Vec<[u8; 28]>,
)
    requires
        call_ensures(SenderState::due_reports, (state, now), reports),
    ensures
        reports@.len() == how_many_owe(old(state)@.streams, now@),
        final(state)@.streams.len() == old(state)@.streams.len(),
        forall|i: int|
            0 <= i < old(state)@.streams.len() ==> {
                let before = #[trigger] old(state)@.streams[i];
                let after = final(state)@.streams[i];
                let place = how_many_owe(old(state)@.streams.take(i), now@);
                &&& after == (StreamView { last_report: after.last_report, ..before })
                &&& after.last_report == if owes_a_report(before, now@) {
                    Some(now@)
                } else {
                    before.last_report
                }
                &&& owes_a_report(before, now@) ==> {
                    let (rtp, ntp) = before.last_timestamps->Some_0;
                    &&& place < reports@.len()
                    &&& reports@[place as int]@ == sender_report(
                        before.config.ssrc,
                        ntp,
                        rtp,
                        before.packet_count,
                        before.octet_count,
                    )
                }
            },
{
    let streams = old(state)@.streams;
    lemma_reports(streams, now@);
    assert forall|i: int| 0 <= i < streams.len() && owes_a_report(#[trigger] streams[i], now@) implies {
        let place = how_many_owe(streams.take(i), now@) as int;
        place < reports@.len() && reports@[place]@ == streams[i].report()
    } by {
        let place = how_many_owe(streams.take(i), now@) as int;
        assert(due_reports_of(streams, now@)[place] == streams[i].report());
        assert(report_bytes(reports@)[place] == reports@[place]@);
    }
}

/// Whether a stream owes the receiver a report: it has sent a frame, and reported
/// never or half a second ago.
pub open spec fn owes_a_report(stream: StreamView, now: int) -> bool {
    stream.last_timestamps is Some && (stream.last_report is None || now
        - stream.last_report->Some_0 >= 500_000_000)
}

/// How many streams owe a report.
pub open spec fn how_many_owe(streams: Seq<StreamView>, now: int) -> nat
    decreases streams.len(),
{
    if streams.len() == 0 {
        0
    } else if owes_a_report(streams.last(), now) {
        how_many_owe(streams.drop_last(), now) + 1
    } else {
        how_many_owe(streams.drop_last(), now)
    }
}

proof fn lemma_reports(streams: Seq<StreamView>, now: int)
    ensures
        due_reports_of(streams, now).len() == how_many_owe(streams, now),
        forall|i: int|
            0 <= i < streams.len() && owes_a_report(#[trigger] streams[i], now) ==> how_many_owe(
                streams.take(i),
                now,
            ) < due_reports_of(streams, now).len() && due_reports_of(streams, now)[how_many_owe(
                streams.take(i),
                now,
            ) as int] == streams[i].report(),
    decreases streams.len(),
{
    if streams.len() > 0 {
        let rest = streams.drop_last();
        lemma_reports(rest, now);
        assert forall|i: int|
            0 <= i < streams.len() && owes_a_report(#[trigger] streams[i], now) implies how_many_owe(
            streams.take(i),
            now,
        ) < due_reports_of(streams, now).len() && due_reports_of(streams, now)[how_many_owe(
            streams.take(i),
            now,
        ) as int] == streams[i].report() by {
            if i < rest.len() {
                assert(rest[i] == streams[i]);
                assert(rest.take(i) =~= streams.take(i));
            } else {
                assert(streams.take(i) =~= rest);
            }
        }
    }
}

/// Chunks come out of the queue in the order they went in, each once, and a
/// disconnect is told only when none is left.
pub proof fn law_chunks_come_out_in_order(
    queue: &mut ChunkQueue,
    chunk: EncodedChunk,
    other: &mut ChunkQueue,
    next: Result<EncodedChunk, RecvTimeoutError>,
)
    requires
        call_ensures(ChunkQueue::send, (queue, chunk), ()),
        call_ensures(ChunkQueue::poll, (other,), next),
        old(other)@ == final(queue)@,
    ensures
        next is Ok,
        final(queue)@.senders == old(queue)@.senders,
        final(other)@.senders == old(other)@.senders,
        old(queue)@.chunks.len() == 0 ==> next->Ok_0 == chunk && final(other)@.chunks.len() == 0,
        old(queue)@.chunks.len() > 0 ==> next->Ok_0 == old(queue)@.chunks[0]
            && final(other)@.chunks == old(queue)@.chunks.skip(1).push(chunk),
{
    if old(queue)@.chunks.len() > 0 {
        assert(final(other)@.chunks =~= old(queue)@.chunks.skip(1).push(chunk));
    }
}

/// An empty queue tells whether anyone can still add to it, which is so from the
/// start until as many producers are gone as there were.
pub proof fn law_disconnects_are_told(
    queue: &mut ChunkQueue,
    next: Result<EncodedChunk, RecvTimeoutError>,
    dropping: &mut ChunkQueue,
    last: bool,
    adding: &mut ChunkQueue,
    fresh: ChunkQueue,
)
    requires
        call_ensures(ChunkQueue::poll, (queue,), next),
        call_ensures(ChunkQueue::drop_sender, (dropping,), last),
        call_ensures(ChunkQueue::add_sender, (adding,), ()),
        call_ensures(ChunkQueue::new, (), fresh),
        old(dropping)@.senders > 0,
        old(adding)@.senders < u64::MAX,
    ensures
        old(queue)@.chunks.len() == 0 ==> final(queue)@ == old(queue)@ && match next {
            Ok(_) => false,
            Err(RecvTimeoutError::Disconnected) => old(queue)@.senders == 0,
            Err(RecvTimeoutError::Timeout) => old(queue)@.senders > 0,
        },
        old(queue)@.chunks.len() > 0 ==> next is Ok,
        last <==> old(dropping)@.senders == 1,
        final(dropping)@.senders + 1 == old(dropping)@.senders,
        final(dropping)@.chunks == old(dropping)@.chunks,
        final(adding)@.senders == old(adding)@.senders + 1,
        final(adding)@.chunks == old(adding)@.chunks,
        fresh@.chunks.len() == 0 && fresh@.senders == 1,
{
}

/// The loop ends when it is told to or when no chunk will come any more, and
/// sends every chunk that comes before that.
pub proof fn law_the_loop_sends_what_comes(
    stop: bool,
    polled: Result<EncodedChunk, RecvTimeoutError>,
    step: LoopStep,
)
    requires
        call_ensures(next_step, (stop, &polled), step),
    ensures
        step is Stop <==> stop || polled == Err::<EncodedChunk, RecvTimeoutError>(
            RecvTimeoutError::Disconnected,
        ),
        step is SendChunk <==> !stop && polled is Ok,
{
}

/// Feedback that comes in is acted on as of one reading of the wall clock: every
/// stream answers by it, and the state moves by it.
pub proof fn law_feedback_is_acted_on_by_one_clock_reading(
    state: &mut SenderState,
    packet: &[u8],
    now: Instant,
    responses: Vec<StreamResponse>,
)
    requires
        old(state).wf(),
        call_ensures(SenderState::receive, (state, packet, now), responses),
    ensures
        final(state).wf(),
        responses@.len() == old(state)@.streams.len(),
        exists|ntp: u64|
            final(state)@ == #[trigger] old(state)@.received(packet@, ntp, now.nanos as int)
                && forall|i: int|
                0 <= i < responses@.len() ==> old(state)@.answered(
                    packet@,
                    ntp,
                    i,
                    #[trigger] responses@[i],
                ),
{
}

} // verus!
