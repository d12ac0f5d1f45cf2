//! Minimal Cast Streaming RTCP: builds Sender Reports and parses the
//! receiver's compound packets (Cast Feedback = ACK checkpoint + NACKs,
//! Picture Loss Indicator, and the round trip from Receiver Reports).

use vstd::prelude::*;
use vstd::slice::slice_subrange;

use crate::bandwidth::span_of;
use crate::time::Duration;

verus! {

pub const PT_SENDER_REPORT: u8 = 200;

pub const PT_RECEIVER_REPORT: u8 = 201;

pub const PT_PAYLOAD_SPECIFIC: u8 = 206;

pub const SUBTYPE_PICTURE_LOSS: u8 = 1;

pub const SUBTYPE_FEEDBACK: u8 = 15;

/// The four letters "CAST" as a big-endian number.
pub const CAST: u32 = 0x4341_5354;

/// "All packets of the frame lost" marker in NACK loss fields.
pub const ALL_PACKETS_LOST: u16 = 0xffff;

/// Seconds between the NTP epoch (1900) and the Unix epoch (1970).
pub const NTP_UNIX_OFFSET: u64 = 2_208_988_800;

/// The NTP timestamp of a time since the Unix epoch: whole seconds in the
/// upper half, the fraction of a second in the lower half.
pub open spec fn ntp_of(seconds: u64, nanos: u32) -> int {
    let since_1900 = if seconds + NTP_UNIX_OFFSET <= u64::MAX {
        seconds + NTP_UNIX_OFFSET
    } else {
        u64::MAX as int
    };
    (since_1900 % 0x1_0000_0000) * 0x1_0000_0000 + nanos * 0x1_0000_0000 / 1_000_000_000
}

/// The NTP timestamp `seconds` and `nanos` after the Unix epoch.
pub fn ntp_timestamp(seconds: u64, nanos: u32) -> (ntp: u64)
    requires
        nanos < 1_000_000_000,
    ensures
        ntp == ntp_of(seconds, nanos),
{
    let since_1900: u64 = seconds.saturating_add(NTP_UNIX_OFFSET);
    let fraction: u64 = nanos as u64 * 0x1_0000_0000 / 1_000_000_000;
    (since_1900 % 0x1_0000_0000) * 0x1_0000_0000 + fraction
}

/// Calls `std::time::SystemTime::elapsed` on the Unix epoch, for the whole seconds
/// and the remaining nanoseconds since then; `None` when the clock is set before
/// it. Of the reading nothing is claimed but that a second holds its nanoseconds.
#[verifier::external_body]
fn unix_time() -> (reading: Option<(u64, u32)>)
    ensures
        reading matches Some((_, nanos)) ==> nanos < 1_000_000_000,
{
    let elapsed = std::time::UNIX_EPOCH.elapsed().ok()?;
    Some((elapsed.as_secs(), elapsed.subsec_nanos()))
}

/// The wall clock as an NTP timestamp. A clock that is set before the Unix epoch
/// counts as standing at it.
pub fn ntp_now() -> (ntp: u64)
    ensures
        exists|seconds: u64, nanos: u32|
            nanos < 1_000_000_000 && ntp == #[trigger] ntp_of(seconds, nanos),
{
    match unix_time() {
        Some((seconds, nanos)) => ntp_timestamp(seconds, nanos),
        None => ntp_timestamp(0, 0),
    }
}

/// The four bytes of a number, most significant first.
pub open spec fn be32(value: u32) -> Seq<u8> {
    seq![
        (value / 0x100_0000) as u8,
        (value / 0x1_0000 % 0x100) as u8,
        (value / 0x100 % 0x100) as u8,
        (value % 0x100) as u8,
    ]
}

/// The eight bytes of a number, most significant first.
pub open spec fn be64(value: u64) -> Seq<u8> {
    be32((value / 0x1_0000_0000) as u32) + be32((value % 0x1_0000_0000) as u32)
}

/// The number that the four bytes from `at` on spell, most significant first.
pub open spec fn be32_at(bytes: Seq<u8>, at: int) -> u32 {
    (bytes[at] * 0x100_0000 + bytes[at + 1] * 0x1_0000 + bytes[at + 2] * 0x100 + bytes[at
        + 3]) as u32
}

/// The layout of a Sender Report with no report blocks.
pub open spec fn sender_report(
    sender_ssrc: u32,
    ntp_timestamp: u64,
    rtp_timestamp: u32,
    packet_count: u32,
    octet_count: u32,
) -> Seq<u8> {
    seq![0x80u8, PT_SENDER_REPORT, 0, 6] + be32(sender_ssrc) + be64(ntp_timestamp) + be32(
        rtp_timestamp,
    ) + be32(packet_count) + be32(octet_count)
}

fn be_bytes(value: u32) -> (bytes: [u8; 4])
    ensures
        bytes@ == be32(value),
{
    let bytes = [
        (value / 0x100_0000) as u8,
        (value / 0x1_0000 % 0x100) as u8,
        (value / 0x100 % 0x100) as u8,
        (value % 0x100) as u8,
    ];
    assert(bytes@ =~= be32(value));
    bytes
}

/// A 28-byte RTCP Sender Report (no report blocks): maps the stream's RTP
/// timeline onto the NTP wall clock, which the receiver needs for A/V sync
/// and lag estimation.
pub fn build_sender_report(
    sender_ssrc: u32,
    ntp_timestamp: u64,
    rtp_timestamp: u32,
    packet_count: u32,
    octet_count: u32,
) -> (report: [u8; 28])
    ensures
        report@ == sender_report(
            sender_ssrc,
            ntp_timestamp,
            rtp_timestamp,
            packet_count,
            octet_count,
        ),
{
    let a = be_bytes(sender_ssrc);
    let b = be_bytes((ntp_timestamp / 0x1_0000_0000) as u32);
    let c = be_bytes((ntp_timestamp % 0x1_0000_0000) as u32);
    let d = be_bytes(rtp_timestamp);
    let e = be_bytes(packet_count);
    let f = be_bytes(octet_count);
    // V=2, P=0, report count 0; length: 7 words - 1.
    let report = [
        0x80, PT_SENDER_REPORT, 0, 6,
        a[0], a[1], a[2], a[3],
        b[0], b[1], b[2], b[3], c[0], c[1], c[2], c[3],
        d[0], d[1], d[2], d[3],
        e[0], e[1], e[2], e[3],
        f[0], f[1], f[2], f[3],
    ];
    assert(report@ =~= sender_report(
        sender_ssrc,
        ntp_timestamp,
        rtp_timestamp,
        packet_count,
        octet_count,
    ));
    report
}

/// A big-endian `u32` at `at`, or `None` if the packet is too short.
fn be_u32(bytes: &[u8], at: usize) -> (value: Option<u32>)
    ensures
        value == if at + 4 <= bytes@.len() {
            Some(be32_at(bytes@, at as int))
        } else {
            None
        },
{
    if bytes.len() < 4 || at > bytes.len() - 4 {
        return None;
    }
    Some(
        bytes[at] as u32 * 0x100_0000 + bytes[at + 1] as u32 * 0x1_0000 + bytes[at + 2] as u32
            * 0x100 + bytes[at + 3] as u32,
    )
}

/// One packet-level NACK: a frame (full frame id, bit-expanded) and a packet
/// within it, or `ALL_PACKETS_LOST` for the whole frame.
#[derive(Clone, Copy, PartialEq, Eq, Structural, Debug)]
pub struct Nack {
    pub frame_id: i64,
    pub packet_id: u16,
}

/// What one compound packet told about a stream.
#[derive(Debug)]
pub struct ReceiverEvents {
    /// All frames up to and including this one are fully received. Signed:
    /// a receiver with nothing yet reports the frame before the first, -1.
    pub checkpoint_frame_id: Option<i64>,
    pub nacks: Vec<Nack>,
    /// The receiver lost decoder state and needs a key frame.
    pub picture_loss: bool,
    /// Round-trip time from a Receiver Report's LSR/DLSR, when one arrived.
    pub round_trip: Option<Duration>,
}

/// The contents of [`ReceiverEvents`].
pub struct EventsView {
    pub checkpoint: Option<i64>,
    pub nacks: Seq<Nack>,
    pub picture_loss: bool,
    pub round_trip: Option<nat>,
}

impl View for ReceiverEvents {
    type V = EventsView;

    open spec fn view(&self) -> EventsView {
        EventsView {
            checkpoint: self.checkpoint_frame_id,
            nacks: self.nacks@,
            picture_loss: self.picture_loss,
            round_trip: span_of(self.round_trip),
        }
    }
}

impl EventsView {
    pub open spec fn none() -> EventsView {
        EventsView {
            checkpoint: None,
            nacks: Seq::empty(),
            picture_loss: false,
            round_trip: None,
        }
    }
}

impl Default for ReceiverEvents {
    fn default() -> (events: Self)
        ensures
            events@ == EventsView::none(),
    {
        ReceiverEvents {
            checkpoint_frame_id: None,
            nacks: Vec::new(),
            picture_loss: false,
            round_trip: None,
        }
    }
}

impl ReceiverEvents {
    fn clear(&mut self)
        ensures
            final(self)@ == EventsView::none(),
    {
        self.checkpoint_frame_id = None;
        self.nacks.clear();
        self.picture_loss = false;
        self.round_trip = None;
    }
}

/// `value` as a 64-bit two's-complement number.
pub open spec fn wrap_i64(value: int) -> int {
    let low = value % 0x1_0000_0000_0000_0000;
    if low > i64::MAX {
        low - 0x1_0000_0000_0000_0000
    } else {
        low
    }
}

/// The number nearest `reference` whose low byte is `low8`: it lies in
/// `[reference - 128, reference + 127]`.
pub open spec fn nearest(low8: u8, reference: int) -> int {
    let ahead = (low8 - reference) % 256;
    if ahead >= 128 {
        reference + ahead - 256
    } else {
        reference + ahead
    }
}

/// Expands an 8-bit frame id to the value *nearest* the reference. The window
/// must reach backwards: a receiver with nothing yet acks frame -1.
pub fn expand_frame_id(low8: u8, reference: i64) -> (frame_id: i64)
    ensures
        frame_id == wrap_i64(nearest(low8, reference as int)),
{
    let reference_low: u8 = #[verifier::truncate]
    (reference as u8);
    assert(reference_low == reference % 256) by (bit_vector)
        requires
            reference_low == reference as u8,
    ;
    let ahead: u8 = low8.wrapping_sub(reference_low);
    let delta: i64 = if ahead >= 128 {
        ahead as i64 - 256
    } else {
        ahead as i64
    };
    reference.wrapping_add(delta)
}

/// The frame id after `checkpoint`, which loss fields are expanded against.
pub open spec fn next_frame(checkpoint: i64) -> int {
    if checkpoint < i64::MAX {
        checkpoint + 1
    } else {
        i64::MAX as int
    }
}

/// Whether bit `i` of a loss field's bit vector is set.
pub open spec fn bit_set(bits: u8, i: int) -> bool {
    (bits >> (i as u8)) & 1u8 == 1u8
}

/// The packets that the lowest `upto` bits mark: bit `i` stands for the packet
/// `i + 1` after `packet_id`, as far as packet ids reach.
pub open spec fn marked(frame_id: i64, packet_id: u16, bits: u8, upto: int) -> Seq<Nack>
    decreases upto,
{
    if upto <= 0 {
        Seq::empty()
    } else {
        let before = marked(frame_id, packet_id, bits, upto - 1);
        if bit_set(bits, upto - 1) && packet_id + upto <= u16::MAX {
            before.push(Nack { frame_id, packet_id: (packet_id + upto) as u16 })
        } else {
            before
        }
    }
}

/// The NACKs of one loss field:
/// `[frame id u8][lost packet id u16][bit vector for the next 8 u8]`.
pub open spec fn field_nacks(field: Seq<u8>, checkpoint: i64) -> Seq<Nack> {
    let frame_id = wrap_i64(nearest(field[0], next_frame(checkpoint))) as i64;
    let packet_id = (field[1] * 0x100 + field[2]) as u16;
    seq![Nack { frame_id, packet_id }] + if packet_id == ALL_PACKETS_LOST {
        Seq::empty()
    } else {
        marked(frame_id, packet_id, field[3], 8)
    }
}

/// The NACKs of the first `count` loss fields.
pub open spec fn loss_nacks(fields: Seq<u8>, checkpoint: i64, count: int) -> Seq<Nack>
    decreases count,
{
    if count <= 0 {
        Seq::empty()
    } else {
        loss_nacks(fields, checkpoint, count - 1) + field_nacks(
            fields.subrange(4 * (count - 1), 4 * count),
            checkpoint,
        )
    }
}

/// How many loss fields a feedback body really holds; a trailing partial field
/// does not count.
pub open spec fn loss_field_count(body: Seq<u8>) -> int {
    if body.len() < 16 {
        0
    } else if body[13] <= (body.len() - 16) / 4 {
        body[13] as int
    } else {
        (body.len() - 16) / 4
    }
}

/// The later of the checkpoint seen so far and a new one.
pub open spec fn later_checkpoint(seen: Option<i64>, checkpoint: i64) -> i64 {
    match seen {
        Some(existing) => if existing >= checkpoint {
            existing
        } else {
            checkpoint
        },
        None => checkpoint,
    }
}

/// Whether `body` is Cast Feedback for the stream `sender_ssrc`.
pub open spec fn is_feedback_for(body: Seq<u8>, sender_ssrc: u32) -> bool {
    &&& body.len() >= 14
    &&& be32_at(body, 4) == sender_ssrc
    &&& be32_at(body, 8) == CAST
}

/// The events after a Cast Feedback message:
/// `[receiver ssrc][sender ssrc]["CAST"][checkpoint u8][#loss u8][delay u16]`
/// and then the loss fields.
pub open spec fn after_feedback(
    body: Seq<u8>,
    sender_ssrc: u32,
    hint: i64,
    events: EventsView,
) -> EventsView {
    if is_feedback_for(body, sender_ssrc) {
        let checkpoint = wrap_i64(nearest(body[12], hint as int)) as i64;
        EventsView {
            checkpoint: Some(later_checkpoint(events.checkpoint, checkpoint)),
            nacks: events.nacks + loss_nacks(body.skip(16), checkpoint, loss_field_count(body)),
            ..events
        }
    } else {
        events
    }
}

/// The middle 32 bits of an NTP timestamp, as RTCP report blocks carry them.
pub open spec fn middle_32(ntp: u64) -> u32 {
    (ntp / 0x1_0000 % 0x1_0000_0000) as u32
}

/// How long a report block says a round trip took, in 1/65536 s: the receiver
/// echoes the stamp of the last Sender Report plus how long it sat on it.
pub open spec fn echoed_ticks(body: Seq<u8>, ntp: u64) -> int {
    (middle_32(ntp) - be32_at(body, 20) - be32_at(body, 24)) % 0x1_0000_0000
}

/// The round trip from the first report block of a Receiver Report read at
/// `ntp`. Anything implausible is discarded rather than trusted.
pub open spec fn round_trip_of(body: Seq<u8>, block_count: u8, ntp: u64) -> Option<nat> {
    if block_count > 0 && body.len() >= 28 && be32_at(body, 20) != 0 && 0 < echoed_ticks(body, ntp)
        <= u16::MAX {
        Some((echoed_ticks(body, ntp) * 1_000_000 / 65_536 * 1_000) as nat)
    } else {
        None
    }
}

/// The events after one message of a compound packet.
pub open spec fn after_message(
    packet_type: u8,
    count_or_subtype: u8,
    body: Seq<u8>,
    sender_ssrc: u32,
    hint: i64,
    ntp: u64,
    events: EventsView,
) -> EventsView {
    if packet_type == PT_PAYLOAD_SPECIFIC && count_or_subtype == SUBTYPE_FEEDBACK {
        after_feedback(body, sender_ssrc, hint, events)
    } else if packet_type == PT_PAYLOAD_SPECIFIC && count_or_subtype == SUBTYPE_PICTURE_LOSS
        && body.len() >= 8 && be32_at(body, 4) == sender_ssrc {
        EventsView { picture_loss: true, ..events }
    } else if packet_type == PT_RECEIVER_REPORT && round_trip_of(body, count_or_subtype, ntp)
        is Some {
        EventsView { round_trip: round_trip_of(body, count_or_subtype, ntp), ..events }
    } else {
        // Extended reports, SDES, etc. carry nothing we act on.
        events
    }
}

/// The size of the message that `data` starts with, header included.
pub open spec fn message_size(data: Seq<u8>) -> int {
    4 + 4 * (data[2] * 0x100 + data[3])
}

/// Whether `data` starts with a whole message of protocol version 2.
pub open spec fn starts_with_message(data: Seq<u8>) -> bool {
    data.len() >= 4 && data[0] / 64 == 2 && message_size(data) <= data.len()
}

/// The events after a compound packet: its messages in order, up to the first
/// that is corrupt or cut short.
pub open spec fn after_compound(
    data: Seq<u8>,
    sender_ssrc: u32,
    hint: i64,
    ntp: u64,
    events: EventsView,
) -> EventsView
    decreases data.len(),
{
    if starts_with_message(data) {
        let size = message_size(data);
        after_compound(
            data.skip(size),
            sender_ssrc,
            hint,
            ntp,
            after_message(
                data[1],
                data[0] % 32,
                data.subrange(4, size),
                sender_ssrc,
                hint,
                ntp,
                events,
            ),
        )
    } else {
        events
    }
}

/// Parses a compound RTCP packet from the receiver into `events`, replacing
/// its previous contents (the caller reuses one instance to keep the NACK
/// buffer's allocation). `sender_ssrc` selects the stream this parser
/// instance cares about; feedback for other SSRCs is ignored.
/// `checkpoint_hint` is the last known checkpoint, used to bit-expand the
/// 8-bit frame ids on the wire. Round trips are measured against the wall
/// clock, which is read once for the packet.
pub fn parse(data: &[u8], sender_ssrc: u32, checkpoint_hint: i64, events: &mut ReceiverEvents)
    ensures
        exists|ntp: u64|
            final(events)@ == #[trigger] after_compound(
                data@,
                sender_ssrc,
                checkpoint_hint,
                ntp,
                EventsView::none(),
            ),
{
    let ntp: u64 = ntp_now();
    parse_at(data, sender_ssrc, checkpoint_hint, ntp, events);
}

/// Parses a compound RTCP packet that arrived when the wall clock read `ntp`.
pub fn parse_at(
    data: &[u8],
    sender_ssrc: u32,
    checkpoint_hint: i64,
    ntp: u64,
    events: &mut ReceiverEvents,
)
    ensures
        final(events)@ == after_compound(
            data@,
            sender_ssrc,
            checkpoint_hint,
            ntp,
            EventsView::none(),
        ),
{
    events.clear();
    let mut rest = data;
    assert(rest@ =~= data@);
    while rest.len() >= 4
        invariant
            after_compound(rest@, sender_ssrc, checkpoint_hint, ntp, events@) == after_compound(
                data@,
                sender_ssrc,
                checkpoint_hint,
                ntp,
                EventsView::none(),
            ),
        ensures
            after_compound(rest@, sender_ssrc, checkpoint_hint, ntp, events@) == events@,
        decreases rest@.len(),
    {
        let byte0: u8 = rest[0];
        let packet_type: u8 = rest[1];
        if byte0 / 64 != 2 {
            break ; // not RTCP v2; corrupt
        }
        let count_or_subtype: u8 = byte0 % 32;
        let total: usize = 4 + 4 * (rest[2] as usize * 0x100 + rest[3] as usize);
        if total > rest.len() {
            break ;
        }
        let body = slice_subrange(rest, 4, total);
        if packet_type == PT_PAYLOAD_SPECIFIC && count_or_subtype == SUBTYPE_FEEDBACK {
            parse_feedback(body, sender_ssrc, checkpoint_hint, events);
        } else if packet_type == PT_PAYLOAD_SPECIFIC && count_or_subtype == SUBTYPE_PICTURE_LOSS {
            if let Some(ssrc) = be_u32(body, 4) {
                if ssrc == sender_ssrc {
                    events.picture_loss = true;
                }
            }
        } else if packet_type == PT_RECEIVER_REPORT {
            if let Some(span) = parse_round_trip(body, count_or_subtype, ntp) {
                events.round_trip = Some(span);
            }
        }
        assert(rest@.skip(total as int) =~= rest@.subrange(total as int, rest@.len() as int));
        rest = slice_subrange(rest, total, rest.len());
    }
}

/// RTT from the first report block:
/// `[sender ssrc][report block: ssrc, loss, ext seq, jitter, LSR, DLSR]`.
#[verifier::spinoff_prover]
#[verifier::rlimit(50)]
fn parse_round_trip(body: &[u8], block_count: u8, ntp: u64) -> (span: Option<Duration>)
    ensures
        span_of(span) == round_trip_of(body@, block_count, ntp),
{
    if block_count == 0 {
        return None;
    }
    let (lsr, dlsr) = match (be_u32(body, 4 + 16), be_u32(body, 4 + 20)) {
        (Some(lsr), Some(dlsr)) => (lsr, dlsr),
        _ => {
            return None;
        },
    };
    if lsr == 0 {
        return None;
    }
    let elapsed: u32 = ntp_middle_32(ntp).wrapping_sub(lsr).wrapping_sub(dlsr);
    // A negative or absurd result means the stamps did not line up.
    if elapsed == 0 || elapsed > u16::MAX as u32 {
        return None;
    }
    let micros: u64 = elapsed as u64 * 1_000_000 / 65_536;
    Some(Duration::from_micros(micros))
}

fn ntp_middle_32(ntp: u64) -> (middle: u32)
    ensures
        middle == middle_32(ntp),
{
    (ntp / 0x1_0000 % 0x1_0000_0000) as u32
}

/// Appends the NACKs of one loss field.
fn push_field_nacks(id: u8, packet_id: u16, bits: u8, reference: i64, nacks: &mut Vec<Nack>)
    ensures
        ({
            let frame_id = wrap_i64(nearest(id, reference as int)) as i64;
            final(nacks)@ == old(nacks)@ + (seq![Nack { frame_id, packet_id }] + if packet_id
                == ALL_PACKETS_LOST {
                Seq::empty()
            } else {
                marked(frame_id, packet_id, bits, 8)
            })
        }),
{
    let frame_id: i64 = expand_frame_id(id, reference);
    nacks.push(Nack { frame_id, packet_id });
    let ghost first = old(nacks)@.push(Nack { frame_id, packet_id });
    if packet_id == ALL_PACKETS_LOST {
        return;
    }
    let mut offset: u8 = 0;
    assert(nacks@ =~= first + marked(frame_id, packet_id, bits, 0));
    while offset < 8
        invariant
            offset <= 8,
            nacks@ == first + marked(frame_id, packet_id, bits, offset as int),
        decreases 8 - offset,
    {
        if (bits >> offset) & 1 == 1 && packet_id <= u16::MAX - (offset as u16 + 1) {
            nacks.push(Nack { frame_id, packet_id: packet_id + offset as u16 + 1 });
        }
        offset = offset + 1;
        assert(nacks@ =~= first + marked(frame_id, packet_id, bits, offset as int));
    }
}

fn parse_feedback(body: &[u8], sender_ssrc: u32, hint: i64, events: &mut ReceiverEvents)
    ensures
        final(events)@ == after_feedback(body@, sender_ssrc, hint, old(events)@),
{
    if body.len() < 14 {
        return;
    }
    match (be_u32(body, 4), be_u32(body, 8)) {
        (Some(ssrc), Some(cast)) => {
            if ssrc != sender_ssrc || cast != CAST {
                return;
            }
        },
        _ => {
            return;
        },
    }
    let loss_count: usize = body[13] as usize;
    let checkpoint: i64 = expand_frame_id(body[12], hint);
    events.checkpoint_frame_id = Some(
        match events.checkpoint_frame_id {
            Some(existing) => if existing >= checkpoint {
                existing
            } else {
                checkpoint
            },
            None => checkpoint,
        },
    );
    let ghost before = events.nacks@;
    let size: usize = body.len();
    if size < 16 {
        assert(events.nacks@ =~= before + loss_nacks(body@.skip(16), checkpoint, 0));
        return;
    }
    let ghost fields = body@.skip(16);
    // A trailing partial field is dropped, which is what a short record deserves.
    let whole: usize = (size - 16) / 4;
    let count: usize = if loss_count <= whole {
        loss_count
    } else {
        whole
    };
    let reference: i64 = if checkpoint < i64::MAX {
        checkpoint + 1
    } else {
        i64::MAX
    };
    let mut k: usize = 0;
    assert(events.nacks@ =~= before + loss_nacks(fields, checkpoint, 0));
    while k < count
        invariant
            k <= count,
            size == body@.len(),
            16 + 4 * count <= size,
            fields == body@.skip(16),
            reference == next_frame(checkpoint),
            events.nacks@ == before + loss_nacks(fields, checkpoint, k as int),
            events.checkpoint_frame_id == Some(
                later_checkpoint(old(events).checkpoint_frame_id, checkpoint),
            ),
            events.picture_loss == old(events).picture_loss,
            events.round_trip == old(events).round_trip,
        decreases count - k,
    {
        let at: usize = 16 + 4 * k;
        let ghost field = fields.subrange(4 * k as int, 4 * (k + 1));
        assert(field.len() == 4 && forall|j: int| 0 <= j < 4 ==> field[j] == body@[at + j]);
        let ghost known = events.nacks@;
        push_field_nacks(
            body[at],
            body[at + 1] as u16 * 0x100 + body[at + 2] as u16,
            body[at + 3],
            reference,
            &mut events.nacks,
        );
        assert(events.nacks@ =~= known + field_nacks(field, checkpoint));
        k = k + 1;
        assert(events.nacks@ =~= before + loss_nacks(fields, checkpoint, k as int));
    }
    // An optional "CST2" frame-level ACK bit vector may follow; the checkpoint
    // and NACKs are all that is needed, so it is deliberately not parsed.
}

/// Expanding the low byte of a frame id gives that frame id back, wherever the
/// reference is near it: at most 128 ahead of it and 127 behind it.
pub proof fn law_low_byte_expands_to_its_frame(frame_id: i64, reference: i64)
    requires
        reference - 128 <= frame_id <= reference + 127,
    ensures
        wrap_i64(nearest((frame_id % 256) as u8, reference as int)) == frame_id,
{
}

/// An expanded frame id keeps the low byte it was expanded from.
pub proof fn law_expansion_keeps_the_low_byte(low8: u8, reference: i64)
    ensures
        wrap_i64(nearest(low8, reference as int)) % 256 == low8,
{
}

/// A receiver with nothing yet acknowledges the frame before the first one.
pub proof fn law_empty_receiver_acknowledges_nothing(
    body: Seq<u8>,
    sender_ssrc: u32,
    hint: i64,
    events: EventsView,
)
    requires
        is_feedback_for(body, sender_ssrc),
        body[12] == 255,
        -1 <= hint < 127,
        events.checkpoint is None,
    ensures
        after_feedback(body, sender_ssrc, hint, events).checkpoint matches Some(seen) && seen
            == -1,
{
}

/// Feedback and picture loss for other streams are ignored.
pub proof fn law_other_streams_are_ignored(
    packet_type: u8,
    count_or_subtype: u8,
    body: Seq<u8>,
    sender_ssrc: u32,
    hint: i64,
    ntp: u64,
    events: EventsView,
)
    requires
        packet_type == PT_PAYLOAD_SPECIFIC,
        body.len() >= 8,
        be32_at(body, 4) != sender_ssrc,
    ensures
        after_message(packet_type, count_or_subtype, body, sender_ssrc, hint, ntp, events)
            == events,
{
}

/// A message never takes back what an earlier one of the same packet told: the
/// checkpoint does not move backwards, and NACKs and picture loss stay.
pub proof fn law_events_only_accumulate(
    data: Seq<u8>,
    sender_ssrc: u32,
    hint: i64,
    ntp: u64,
    events: EventsView,
)
    ensures
        ({
            let after = after_compound(data, sender_ssrc, hint, ntp, events);
            &&& events.checkpoint matches Some(seen) ==> after.checkpoint matches Some(now)
                && now >= seen
            &&& events.nacks.is_prefix_of(after.nacks)
            &&& events.picture_loss ==> after.picture_loss
            &&& events.round_trip is Some ==> after.round_trip is Some
        }),
    decreases data.len(),
{
    if starts_with_message(data) {
        let size = message_size(data);
        let body = data.subrange(4, size);
        let then = after_message(data[1], data[0] % 32, body, sender_ssrc, hint, ntp, events);
        law_events_only_accumulate(data.skip(size), sender_ssrc, hint, ntp, then);
        let after = after_compound(data, sender_ssrc, hint, ntp, events);
        assert(events.nacks.is_prefix_of(then.nacks));
        assert(events.nacks =~= after.nacks.take(events.nacks.len() as int)) by {
            assert(then.nacks =~= after.nacks.take(then.nacks.len() as int));
        }
    }
}

/// Whether `data` is a run of whole messages with nothing left over.
pub open spec fn is_whole(data: Seq<u8>) -> bool
    decreases data.len(),
{
    data.len() == 0 || (starts_with_message(data) && is_whole(data.skip(message_size(data))))
}

/// Parsing two packets glued together tells what parsing the second after the
/// first does, as long as the first is a run of whole messages.
pub proof fn law_compound_packets_concatenate(
    first: Seq<u8>,
    second: Seq<u8>,
    sender_ssrc: u32,
    hint: i64,
    ntp: u64,
    events: EventsView,
)
    requires
        is_whole(first),
    ensures
        after_compound(first + second, sender_ssrc, hint, ntp, events) == after_compound(
            second,
            sender_ssrc,
            hint,
            ntp,
            after_compound(first, sender_ssrc, hint, ntp, events),
        ),
    decreases first.len(),
{
    if first.len() == 0 {
        assert(first + second =~= second);
    } else {
        let size = message_size(first);
        let body = first.subrange(4, size);
        assert((first + second).subrange(4, size) =~= body);
        assert((first + second).skip(size) =~= first.skip(size) + second);
        let then = after_message(first[1], first[0] % 32, body, sender_ssrc, hint, ntp, events);
        law_compound_packets_concatenate(
            first.skip(size),
            second,
            sender_ssrc,
            hint,
            ntp,
            then,
        );
    }
}

/// The bytes of a number spell that number.
proof fn lemma_be32_reads_back(bytes: Seq<u8>, at: int, value: u32)
    requires
        0 <= at,
        at + 4 <= bytes.len(),
        bytes.subrange(at, at + 4) == be32(value),
    ensures
        be32_at(bytes, at) == value,
{
    let four = bytes.subrange(at, at + 4);
    assert(bytes[at] == four[0] && bytes[at + 1] == four[1]);
    assert(bytes[at + 2] == four[2] && bytes[at + 3] == four[3]);
}

/// A Sender Report is 28 bytes long, is itself a whole message, and its fields
/// read back as they were written.
pub proof fn law_sender_report_reads_back(
    sender_ssrc: u32,
    ntp_timestamp: u64,
    rtp_timestamp: u32,
    packet_count: u32,
    octet_count: u32,
)
    ensures
        ({
            let report = sender_report(
                sender_ssrc,
                ntp_timestamp,
                rtp_timestamp,
                packet_count,
                octet_count,
            );
            &&& report.len() == 28
            &&& is_whole(report)
            &&& report[1] == PT_SENDER_REPORT
            &&& be32_at(report, 4) == sender_ssrc
            &&& be32_at(report, 8) * 0x1_0000_0000 + be32_at(report, 12) == ntp_timestamp
            &&& be32_at(report, 16) == rtp_timestamp
            &&& be32_at(report, 20) == packet_count
            &&& be32_at(report, 24) == octet_count
        }),
{
    let report = sender_report(
        sender_ssrc,
        ntp_timestamp,
        rtp_timestamp,
        packet_count,
        octet_count,
    );
    let high = (ntp_timestamp / 0x1_0000_0000) as u32;
    let low = (ntp_timestamp % 0x1_0000_0000) as u32;
    assert(is_whole(report)) by {
        assert(report.skip(28) =~= Seq::empty());
        reveal_with_fuel(is_whole, 2);
    }
    assert(report.subrange(4, 8) =~= be32(sender_ssrc));
    assert(report.subrange(8, 12) =~= be32(high));
    assert(report.subrange(12, 16) =~= be32(low));
    assert(report.subrange(16, 20) =~= be32(rtp_timestamp));
    assert(report.subrange(20, 24) =~= be32(packet_count));
    assert(report.subrange(24, 28) =~= be32(octet_count));
    lemma_be32_reads_back(report, 4, sender_ssrc);
    lemma_be32_reads_back(report, 8, high);
    lemma_be32_reads_back(report, 12, low);
    lemma_be32_reads_back(report, 16, rtp_timestamp);
    lemma_be32_reads_back(report, 20, packet_count);
    lemma_be32_reads_back(report, 24, octet_count);
}

/// A round trip that took `ticks` (in 1/65536 s, and under a second) is read
/// back from a report block that echoes the stamp of a report sent that long
/// before the clock read `ntp`, whatever time the receiver sat on it.
pub proof fn law_round_trip_is_recovered(
    body: Seq<u8>,
    block_count: u8,
    ntp: u64,
    held: u32,
    ticks: u16,
)
    requires
        block_count > 0,
        body.len() >= 28,
        ticks > 0,
        be32_at(body, 24) == held,
        be32_at(body, 20) != 0,
        be32_at(body, 20) == (middle_32(ntp) - held - ticks) % 0x1_0000_0000,
    ensures
        round_trip_of(body, block_count, ntp) == Some(
            (ticks * 1_000_000 / 65_536 * 1_000) as nat,
        ),
{
}

/// Whether the four bytes from `at` on spell a number, most significant first.
pub open spec fn spells(bytes: Seq<u8>, at: int, value: int) -> bool {
    0x100_0000 * bytes[at] + 0x1_0000 * bytes[at + 1] + 0x100 * bytes[at + 2] + bytes[at + 3]
        == value
}

/// Whether `data` is a single message of protocol version 2, with nothing before
/// or after it, of a type and with a count or subtype.
pub open spec fn is_message(data: Seq<u8>, packet_type: int, count_or_subtype: int) -> bool {
    &&& data.len() >= 4
    &&& 128 <= data[0] < 192
    &&& data[0] as int % 32 == count_or_subtype
    &&& data[1] == packet_type
    &&& data.len() == 4 * (1 + 0x100 * data[2] + data[3])
}

/// Whether `frame` is the number nearest `reference` that ends in `low8`.
pub open spec fn is_nearest(frame: int, low8: u8, reference: int) -> bool {
    frame % 256 == low8 && reference - 128 <= frame <= reference + 127
}

/// Whether loss field `k` marks packet `id`: it names it, or the bit vector has
/// the bit for it. Its lowest bit stands for the packet after the named one. A
/// field that gives up the whole frame marks nothing but that.
pub open spec fn marks(fields: Seq<u8>, k: int, id: int) -> bool {
    let named = 0x100 * fields[4 * k + 1] + fields[4 * k + 2];
    ||| id == named
    ||| {
        &&& named != 65_535
        &&& id <= 65_535
        &&& 1 <= id - named <= 8
        &&& (fields[4 * k + 3] >> ((id - named - 1) as u8)) & 1u8 == 1u8
    }
}

/// Whether a NACK is one that loss field `k` asks for, next to a checkpoint.
pub open spec fn asked_by(nack: Nack, fields: Seq<u8>, k: int, checkpoint: int) -> bool {
    marks(fields, k, nack.packet_id as int) && is_nearest(
        nack.frame_id as int,
        fields[4 * k],
        checkpoint + 1,
    )
}

/// Whether a NACK is one that the first `count` loss fields ask for.
pub open spec fn is_asked(nack: Nack, fields: Seq<u8>, count: int, checkpoint: int) -> bool {
    exists|k: int| 0 <= k < count && #[trigger] asked_by(nack, fields, k, checkpoint)
}

/// Whether some NACKs hold what loss field `k` asks for of packet `id`.
pub open spec fn is_told(
    nacks: Seq<Nack>,
    fields: Seq<u8>,
    k: int,
    id: int,
    checkpoint: int,
) -> bool {
    exists|n: int|
        0 <= n < nacks.len() && #[trigger] asked_by(nacks[n], fields, k, checkpoint)
            && nacks[n].packet_id == id
}

/// Whether some NACKs are what `count` loss fields ask for next to a checkpoint:
/// all of it, and nothing else.
pub open spec fn answers(nacks: Seq<Nack>, fields: Seq<u8>, count: int, checkpoint: int) -> bool {
    &&& forall|k: int, id: int|
        0 <= k < count && 0 <= id <= 65_535 && #[trigger] marks(fields, k, id) ==> is_told(
            nacks,
            fields,
            k,
            id,
            checkpoint,
        )
    &&& forall|n: int|
        0 <= n < nacks.len() ==> is_asked(#[trigger] nacks[n], fields, count, checkpoint)
}

/// How many of the lowest `upto` bits are set.
pub open spec fn ones(bits: u8, upto: int) -> nat
    decreases upto,
{
    if upto <= 0 {
        0
    } else if (bits >> ((upto - 1) as u8)) & 1u8 == 1u8 {
        ones(bits, upto - 1) + 1
    } else {
        ones(bits, upto - 1)
    }
}

proof fn lemma_marked(frame_id: i64, packet_id: u16, bits: u8, upto: int)
    requires
        0 <= upto <= 8,
    ensures
        ({
            let nacks = marked(frame_id, packet_id, bits, upto);
            &&& forall|k: int|
                0 <= k < nacks.len() ==> {
                    let id = (#[trigger] nacks[k]).packet_id;
                    &&& nacks[k].frame_id == frame_id
                    &&& packet_id < id <= packet_id + upto
                    &&& (bits >> ((id - packet_id - 1) as u8)) & 1u8 == 1u8
                }
            &&& forall|j: int, k: int|
                0 <= j < k < nacks.len() ==> (#[trigger] nacks[j]).packet_id < (#[trigger]
                nacks[k]).packet_id
            &&& forall|i: int|
                0 <= i < upto && packet_id + i + 1 <= 65_535 && #[trigger] (bits >> (i as u8)) & 1u8
                    == 1u8 ==> nacks.contains(
                    Nack { frame_id, packet_id: (packet_id + i + 1) as u16 },
                )
            &&& nacks.len() <= ones(bits, upto)
            &&& packet_id + upto <= 65_535 ==> nacks.len() == ones(bits, upto)
        }),
    decreases upto,
{
    if upto > 0 {
        lemma_marked(frame_id, packet_id, bits, upto - 1);
        let before = marked(frame_id, packet_id, bits, upto - 1);
        let nacks = marked(frame_id, packet_id, bits, upto);
        assert forall|i: int|
            0 <= i < upto && packet_id + i + 1 <= 65_535 && #[trigger] (bits >> (i as u8)) & 1u8
                == 1u8 implies nacks.contains(
            Nack { frame_id, packet_id: (packet_id + i + 1) as u16 },
        ) by {
            let wanted = Nack { frame_id, packet_id: (packet_id + i + 1) as u16 };
            if i < upto - 1 {
                assert(before.contains(wanted));
                let k = choose|k: int| 0 <= k < before.len() && before[k] == wanted;
                assert(nacks[k] == wanted);
            } else {
                assert(nacks.last() == wanted);
            }
        }
    }
}

/// A loss field asks for the packet it names and for every packet that its bit
/// vector marks: bit `i`, of all eight, stands for the packet `i + 1` after the
/// named one. It asks for no others, for none of them twice, and in their order.
pub proof fn law_a_loss_field_asks_for_what_it_marks(field: Seq<u8>, checkpoint: i64)
    requires
        field.len() == 4,
        -0x4000_0000_0000_0000 <= checkpoint <= 0x4000_0000_0000_0000,
    ensures
        ({
            let nacks = field_nacks(field, checkpoint);
            let named = 0x100 * field[1] + field[2];
            &&& nacks.len() > 0
            &&& nacks[0].packet_id == named
            &&& is_nearest(nacks[0].frame_id as int, field[0], checkpoint + 1)
            &&& forall|k: int|
                0 <= k < nacks.len() ==> (#[trigger] nacks[k]).frame_id == nacks[0].frame_id
                    && marks(field, 0, nacks[k].packet_id as int)
            &&& forall|id: int|
                0 <= id <= 65_535 && #[trigger] marks(field, 0, id) ==> nacks.contains(
                    Nack { frame_id: nacks[0].frame_id, packet_id: id as u16 },
                )
            &&& forall|j: int, k: int|
                0 <= j < k < nacks.len() ==> (#[trigger] nacks[j]).packet_id < (#[trigger]
                nacks[k]).packet_id
            &&& named == 65_535 ==> nacks.len() == 1
            &&& named + 8 <= 65_535 ==> nacks.len() == 1 + ones(field[3], 8)
        }),
{
    let nacks = field_nacks(field, checkpoint);
    let named = (field[1] * 0x100 + field[2]) as u16;
    let frame_id = nacks[0].frame_id;
    lemma_marked(frame_id, named, field[3], 8);
    let rest = marked(frame_id, named, field[3], 8);
    if named != 65_535 {
        assert(nacks =~= seq![Nack { frame_id, packet_id: named }] + rest);
        assert forall|k: int| 0 <= k < nacks.len() implies (#[trigger] nacks[k]).frame_id
            == frame_id && marks(field, 0, nacks[k].packet_id as int) by {
            if k > 0 {
                assert(nacks[k] == rest[k - 1]);
            }
        }
        assert forall|j: int, k: int| 0 <= j < k < nacks.len() implies (#[trigger]
        nacks[j]).packet_id < (#[trigger] nacks[k]).packet_id by {
            assert(nacks[k] == rest[k - 1]);
            if j > 0 {
                assert(nacks[j] == rest[j - 1]);
            }
        }
        assert forall|id: int|
            0 <= id <= 65_535 && #[trigger] marks(field, 0, id) implies nacks.contains(
            Nack { frame_id, packet_id: id as u16 },
        ) by {
            let wanted = Nack { frame_id, packet_id: id as u16 };
            if id == named {
                assert(nacks[0] == wanted);
            } else {
                let i = id - named - 1;
                assert((field[3] >> (i as u8)) & 1u8 == 1u8);
                assert(named + i + 1 == id);
                assert(rest.contains(wanted));
                let k = choose|k: int| 0 <= k < rest.len() && rest[k] == wanted;
                assert(nacks[k + 1] == wanted);
            }
        }
    } else {
        assert(nacks =~= seq![Nack { frame_id, packet_id: named }]);
        assert forall|id: int|
            0 <= id <= 65_535 && #[trigger] marks(field, 0, id) implies nacks.contains(
            Nack { frame_id, packet_id: id as u16 },
        ) by {
            assert(nacks[0] == (Nack { frame_id, packet_id: id as u16 }));
        }
    }
}

/// Loss fields are taken one by one: what two runs of them ask for is what the
/// first asks for and then what the second does.
pub proof fn law_loss_fields_are_taken_one_by_one(
    first: Seq<u8>,
    second: Seq<u8>,
    checkpoint: i64,
    n: int,
    m: int,
)
    requires
        n >= 0,
        m >= 0,
        first.len() == 4 * n,
        second.len() == 4 * m,
    ensures
        loss_nacks(first + second, checkpoint, n + m) == loss_nacks(first, checkpoint, n)
            + loss_nacks(second, checkpoint, m),
        n == 1 ==> loss_nacks(first, checkpoint, n) == field_nacks(first, checkpoint),
        n == 0 ==> loss_nacks(first, checkpoint, n).len() == 0,
    decreases m,
{
    if m > 0 {
        let cut = second.take(4 * (m - 1));
        law_loss_fields_are_taken_one_by_one(first, cut, checkpoint, n, m - 1);
        assert(first + cut =~= (first + second).take((first + cut).len() as int));
        lemma_later_fields_do_not_matter(
            first + cut,
            first + second,
            checkpoint,
            n + m - 1,
        );
        lemma_later_fields_do_not_matter(cut, second, checkpoint, m - 1);
        assert((first + second).subrange(4 * (n + m - 1), 4 * (n + m)) =~= second.subrange(
            4 * (m - 1),
            4 * m,
        ));
        assert(loss_nacks(first + second, checkpoint, n + m) =~= loss_nacks(first, checkpoint, n)
            + loss_nacks(second, checkpoint, m));
    } else {
        assert(second =~= Seq::empty());
        assert(first + second =~= first);
        assert(loss_nacks(first, checkpoint, n) + loss_nacks(second, checkpoint, 0)
            =~= loss_nacks(first, checkpoint, n));
    }
    if n == 1 {
        assert(first.subrange(0, 4) =~= first);
        assert(loss_nacks(first, checkpoint, 0) =~= Seq::empty());
        assert(loss_nacks(first, checkpoint, 1) =~= field_nacks(first, checkpoint));
    }
}

proof fn lemma_later_fields_do_not_matter(
    first: Seq<u8>,
    longer: Seq<u8>,
    checkpoint: i64,
    count: int,
)
    requires
        0 <= count,
        4 * count <= first.len() <= longer.len(),
        first == longer.take(first.len() as int),
    ensures
        loss_nacks(first, checkpoint, count) == loss_nacks(longer, checkpoint, count),
    decreases count,
{
    if count > 0 {
        lemma_later_fields_do_not_matter(first, longer, checkpoint, count - 1);
        assert(first.subrange(4 * (count - 1), 4 * count) =~= longer.subrange(
            4 * (count - 1),
            4 * count,
        ));
    }
}

proof fn lemma_loss_nacks(fields: Seq<u8>, checkpoint: i64, count: int)
    requires
        0 <= count,
        4 * count <= fields.len(),
        -0x4000_0000_0000_0000 <= checkpoint <= 0x4000_0000_0000_0000,
    ensures
        answers(loss_nacks(fields, checkpoint, count), fields, count, checkpoint as int),
    decreases count,
{
    if count > 0 {
        lemma_loss_nacks(fields, checkpoint, count - 1);
        let before = loss_nacks(fields, checkpoint, count - 1);
        let nacks = loss_nacks(fields, checkpoint, count);
        let at = 4 * (count - 1);
        let field = fields.subrange(at, 4 * count);
        assert(field[0] == fields[at] && field[1] == fields[at + 1]);
        assert(field[2] == fields[at + 2] && field[3] == fields[at + 3]);
        law_a_loss_field_asks_for_what_it_marks(field, checkpoint);
        let added = field_nacks(field, checkpoint);
        assert(nacks =~= before + added);
        assert forall|id: int| marks(field, 0, id) == #[trigger] marks(fields, count - 1, id) by {}
        assert forall|k: int, id: int|
            0 <= k < count && 0 <= id <= 65_535 && #[trigger] marks(fields, k, id) implies is_told(
            nacks,
            fields,
            k,
            id,
            checkpoint as int,
        ) by {
            if k < count - 1 {
                assert(is_told(before, fields, k, id, checkpoint as int));
                let n = choose|n: int|
                    0 <= n < before.len() && #[trigger] asked_by(
                        before[n],
                        fields,
                        k,
                        checkpoint as int,
                    ) && before[n].packet_id == id;
                assert(nacks[n] == before[n]);
                assert(asked_by(nacks[n], fields, k, checkpoint as int));
            } else {
                let wanted = Nack { frame_id: added[0].frame_id, packet_id: id as u16 };
                assert(marks(field, 0, id));
                assert(added.contains(wanted));
                let n = choose|n: int| 0 <= n < added.len() && added[n] == wanted;
                assert(nacks[before.len() + n] == wanted);
                assert(asked_by(nacks[before.len() + n], fields, k, checkpoint as int));
            }
        }
        assert forall|n: int| 0 <= n < nacks.len() implies is_asked(
            #[trigger] nacks[n],
            fields,
            count,
            checkpoint as int,
        ) by {
            if n < before.len() {
                assert(nacks[n] == before[n]);
                assert(is_asked(before[n], fields, count - 1, checkpoint as int));
                let k = choose|k: int|
                    0 <= k < count - 1 && #[trigger] asked_by(
                        before[n],
                        fields,
                        k,
                        checkpoint as int,
                    );
                assert(asked_by(nacks[n], fields, k, checkpoint as int));
            } else {
                assert(nacks[n] == added[n - before.len()]);
                assert(marks(field, 0, nacks[n].packet_id as int));
                assert(marks(fields, count - 1, nacks[n].packet_id as int));
                assert(asked_by(nacks[n], fields, count - 1, checkpoint as int));
            }
        }
    }
}

/// A message on its own is read as what its bytes say it is.
proof fn lemma_single_message(
    data: Seq<u8>,
    packet_type: int,
    count_or_subtype: int,
    sender_ssrc: u32,
    hint: i64,
    ntp: u64,
)
    requires
        is_message(data, packet_type, count_or_subtype),
    ensures
        after_compound(data, sender_ssrc, hint, ntp, EventsView::none()) == after_message(
            packet_type as u8,
            count_or_subtype as u8,
            data.skip(4),
            sender_ssrc,
            hint,
            ntp,
            EventsView::none(),
        ),
{
    let size = message_size(data);
    assert(data.subrange(4, size) =~= data.skip(4));
    assert(data.skip(size) =~= Seq::empty());
    reveal_with_fuel(after_compound, 2);
}

/// What parsing Cast Feedback for the stream tells, read off the bytes that
/// arrived: the checkpoint is the frame nearest the last one that ends in its
/// byte, and the NACKs are for the packets that the loss fields mark, for all of
/// them and for no others. A field that is cut short, or that is over what the
/// message announces, is left out.
pub proof fn law_feedback_is_read_off_its_bytes(
    data: &[u8],
    sender_ssrc: u32,
    checkpoint_hint: i64,
    ntp: u64,
    events: &mut ReceiverEvents,
)
    requires
        call_ensures(parse_at, (data, sender_ssrc, checkpoint_hint, ntp, events), ()),
        -0x2000_0000_0000_0000 <= checkpoint_hint <= 0x2000_0000_0000_0000,
        is_message(data@, 206, 15),
        data@.len() >= 20,
        spells(data@, 8, sender_ssrc as int),
        data@.subrange(12, 16) == seq![0x43u8, 0x41, 0x53, 0x54],
    ensures
        ({
            let told = final(events)@;
            let fields = data@.skip(20);
            let announced = data@[17] as int;
            let whole = fields.len() as int / 4;
            &&& told.checkpoint matches Some(checkpoint) && is_nearest(
                checkpoint as int,
                data@[16],
                checkpoint_hint as int,
            )
            &&& answers(
                told.nacks,
                fields,
                if announced <= whole {
                    announced
                } else {
                    whole
                },
                told.checkpoint->Some_0 as int,
            )
            &&& !told.picture_loss
            &&& told.round_trip is None
        }),
{
    lemma_single_message(data@, 206, 15, sender_ssrc, checkpoint_hint, ntp);
    let body = data@.skip(4);
    let letters = data@.subrange(12, 16);
    assert(data@[12] == letters[0] && data@[13] == letters[1]);
    assert(data@[14] == letters[2] && data@[15] == letters[3]);
    assert(spells(body, 4, sender_ssrc as int));
    assert(spells(body, 8, 0x4341_5354));
    lemma_feedback(body, sender_ssrc, checkpoint_hint);
    assert(body.skip(16) =~= data@.skip(20));
    assert(body[12] == data@[16] && body[13] == data@[17]);
}

proof fn lemma_feedback(body: Seq<u8>, sender_ssrc: u32, hint: i64)
    requires
        -0x2000_0000_0000_0000 <= hint <= 0x2000_0000_0000_0000,
        body.len() >= 16,
        spells(body, 4, sender_ssrc as int),
        spells(body, 8, 0x4341_5354),
    ensures
        ({
            let told = after_feedback(body, sender_ssrc, hint, EventsView::none());
            let fields = body.skip(16);
            let whole = fields.len() as int / 4;
            &&& told.checkpoint matches Some(checkpoint) && is_nearest(
                checkpoint as int,
                body[12],
                hint as int,
            )
            &&& answers(
                told.nacks,
                fields,
                if body[13] <= whole {
                    body[13] as int
                } else {
                    whole
                },
                told.checkpoint->Some_0 as int,
            )
            &&& !told.picture_loss
            &&& told.round_trip is None
        }),
{
    let told = after_feedback(body, sender_ssrc, hint, EventsView::none());
    let checkpoint = wrap_i64(nearest(body[12], hint as int)) as i64;
    let count = loss_field_count(body);
    lemma_loss_nacks(body.skip(16), checkpoint, count);
    assert(told.nacks =~= loss_nacks(body.skip(16), checkpoint, count));
}

/// Whoever loses the picture of the stream has a key frame asked for, and for
/// that nothing else is needed.
pub proof fn law_picture_loss_is_read_off_its_bytes(
    data: &[u8],
    sender_ssrc: u32,
    checkpoint_hint: i64,
    ntp: u64,
    events: &mut ReceiverEvents,
)
    requires
        call_ensures(parse_at, (data, sender_ssrc, checkpoint_hint, ntp, events), ()),
        is_message(data@, 206, 1),
        data@.len() >= 12,
    ensures
        final(events)@.picture_loss <==> spells(data@, 8, sender_ssrc as int),
        final(events)@.checkpoint is None,
        final(events)@.nacks.len() == 0,
        final(events)@.round_trip is None,
{
    let body = data@.skip(4);
    lemma_single_message(data@, 206, 1, sender_ssrc, checkpoint_hint, ntp);
    assert(body[4] == data@[8] && body[5] == data@[9] && body[6] == data@[10] && body[7]
        == data@[11]);
}

/// The round trip is the time since the stamp that a report block echoes, less
/// the time the receiver held on to it, in 1/65536 s of the clock, and told to
/// the microsecond. A block without a stamp tells none, and neither does one
/// that comes to nothing or to a second and more.
#[verifier::spinoff_prover]
#[verifier::rlimit(50)]
pub proof fn law_round_trip_is_read_off_its_bytes(
    data: &[u8],
    sender_ssrc: u32,
    checkpoint_hint: i64,
    ntp: u64,
    events: &mut ReceiverEvents,
    blocks: int,
    stamp: int,
    held: int,
    ticks: int,
)
    requires
        call_ensures(parse_at, (data, sender_ssrc, checkpoint_hint, ntp, events), ()),
        is_message(data@, 201, blocks),
        data@.len() >= 32,
        spells(data@, 24, stamp),
        spells(data@, 28, held),
        0 <= ticks < 0x1_0000_0000,
        (stamp + held + ticks - ntp as int / 0x1_0000) % 0x1_0000_0000 == 0,
    ensures
        final(events)@.round_trip is Some <==> blocks > 0 && stamp != 0 && 0 < ticks < 65_536,
        final(events)@.round_trip matches Some(nanos) ==> nanos % 1_000 == 0 && nanos * 65_536
            <= ticks * 1_000_000_000 < (nanos + 1_000) * 65_536,
        final(events)@.checkpoint is None,
        final(events)@.nacks.len() == 0,
        !final(events)@.picture_loss,
{
    let body = data@.skip(4);
    lemma_single_message(data@, 201, blocks, sender_ssrc, checkpoint_hint, ntp);
    assert(body[20] == data@[24] && body[21] == data@[25] && body[22] == data@[26] && body[23]
        == data@[27]);
    assert(body[24] == data@[28] && body[25] == data@[29] && body[26] == data@[30] && body[27]
        == data@[31]);
    assert(be32_at(body, 20) == stamp && be32_at(body, 24) == held);
    lemma_ticks_since(stamp, held, ticks, ntp as int / 0x1_0000);
    lemma_ticks_to_micros(ticks);
    assert(echoed_ticks(body, ntp) == ticks);
}

/// The ticks since a stamp, less those held, are what is missing to the clock.
proof fn lemma_ticks_since(stamp: int, held: int, ticks: int, clock: int)
    requires
        0 <= ticks < 0x1_0000_0000,
        (stamp + held + ticks - clock) % 0x1_0000_0000 == 0,
    ensures
        (clock % 0x1_0000_0000 - stamp - held) % 0x1_0000_0000 == ticks,
{
}

/// Ticks of 1/65536 s, told to the microsecond.
proof fn lemma_ticks_to_micros(ticks: int)
    ensures
        ({
            let nanos = ticks * 1_000_000 / 65_536 * 1_000;
            &&& nanos % 1_000 == 0
            &&& nanos * 65_536 <= ticks * 1_000_000_000 < (nanos + 1_000) * 65_536
        }),
{
}

/// Reports of other types, and messages for other streams, tell nothing.
pub proof fn law_other_messages_tell_nothing(
    data: &[u8],
    sender_ssrc: u32,
    checkpoint_hint: i64,
    ntp: u64,
    events: &mut ReceiverEvents,
    packet_type: int,
    count_or_subtype: int,
)
    requires
        call_ensures(parse_at, (data, sender_ssrc, checkpoint_hint, ntp, events), ()),
        is_message(data@, packet_type, count_or_subtype),
        data@.len() >= 12,
        packet_type != 201,
        packet_type != 206 || (count_or_subtype != 1 && count_or_subtype != 15) || !spells(
            data@,
            8,
            sender_ssrc as int,
        ),
    ensures
        final(events)@ == EventsView::none(),
        EventsView::none().checkpoint is None && EventsView::none().nacks.len() == 0,
        !EventsView::none().picture_loss && EventsView::none().round_trip is None,
{
    let body = data@.skip(4);
    lemma_single_message(
        data@,
        packet_type,
        count_or_subtype,
        sender_ssrc,
        checkpoint_hint,
        ntp,
    );
    assert(body[4] == data@[8] && body[5] == data@[9] && body[6] == data@[10] && body[7]
        == data@[11]);
}

/// What follows a message that is cut short or of another protocol version is
/// not read, nor is that message.
pub proof fn law_corrupt_messages_end_a_packet(
    whole: Seq<u8>,
    rest: Seq<u8>,
    sender_ssrc: u32,
    hint: i64,
    ntp: u64,
)
    requires
        is_whole(whole),
        rest.len() < 4 || rest[0] < 128 || rest[0] >= 192 || rest.len() < 4 * (1 + 0x100 * rest[2]
            + rest[3]),
    ensures
        after_compound(whole + rest, sender_ssrc, hint, ntp, EventsView::none())
            == after_compound(whole, sender_ssrc, hint, ntp, EventsView::none()),
{
    law_compound_packets_concatenate(whole, rest, sender_ssrc, hint, ntp, EventsView::none());
}

/// A message is whole by what its own bytes say, so that messages that follow
/// one another make up a packet.
pub proof fn law_messages_make_up_a_packet(data: Seq<u8>, packet_type: int, count_or_subtype: int)
    requires
        is_message(data, packet_type, count_or_subtype),
    ensures
        is_whole(data),
{
    assert(data.skip(message_size(data)) =~= Seq::empty());
    reveal_with_fuel(is_whole, 2);
}

/// An expanded frame id is the one nearest the reference, around the ends of the
/// 64-bit numbers where that lies beyond them.
pub proof fn law_frame_ids_expand_to_the_nearest(
    low8: u8,
    reference: i64,
    frame_id: i64,
    exact: int,
)
    requires
        call_ensures(expand_frame_id, (low8, reference), frame_id),
        is_nearest(exact, low8, reference as int),
    ensures
        (frame_id - exact) % 0x1_0000_0000_0000_0000 == 0,
        i64::MIN <= exact <= i64::MAX ==> frame_id == exact,
{
    assert(exact == nearest(low8, reference as int));
}

/// Losses are told from the frame after the checkpoint on, for as long as there
/// is one.
pub proof fn law_losses_are_told_from_the_next_frame_on(checkpoint: i64)
    ensures
        checkpoint < i64::MAX ==> next_frame(checkpoint) == checkpoint + 1,
        checkpoint == i64::MAX ==> next_frame(checkpoint) == checkpoint,
{
}

/// A Sender Report has its fields where receivers look for them, most
/// significant byte first.
pub proof fn law_sender_report_spells_its_fields(
    sender_ssrc: u32,
    ntp_timestamp: u64,
    rtp_timestamp: u32,
    packet_count: u32,
    octet_count: u32,
    report: [u8; 28],
)
    requires
        call_ensures(
            build_sender_report,
            (sender_ssrc, ntp_timestamp, rtp_timestamp, packet_count, octet_count),
            report,
        ),
    ensures
        is_message(report@, 200, 0),
        report@[0] == 128,
        report@.len() == 28,
        spells(report@, 4, sender_ssrc as int),
        spells(report@, 8, ntp_timestamp as int / 0x1_0000_0000),
        spells(report@, 12, ntp_timestamp as int % 0x1_0000_0000),
        spells(report@, 16, rtp_timestamp as int),
        spells(report@, 20, packet_count as int),
        spells(report@, 24, octet_count as int),
{
    lemma_report_spells(sender_ssrc, ntp_timestamp, rtp_timestamp, packet_count, octet_count);
}

/// The same of the layout itself.
pub proof fn lemma_report_spells(
    sender_ssrc: u32,
    ntp_timestamp: u64,
    rtp_timestamp: u32,
    packet_count: u32,
    octet_count: u32,
)
    ensures
        ({
            let report = sender_report(
                sender_ssrc,
                ntp_timestamp,
                rtp_timestamp,
                packet_count,
                octet_count,
            );
            &&& is_message(report, 200, 0)
            &&& report[0] == 128
            &&& report.len() == 28
            &&& spells(report, 4, sender_ssrc as int)
            &&& spells(report, 8, ntp_timestamp as int / 0x1_0000_0000)
            &&& spells(report, 12, ntp_timestamp as int % 0x1_0000_0000)
            &&& spells(report, 16, rtp_timestamp as int)
            &&& spells(report, 20, packet_count as int)
            &&& spells(report, 24, octet_count as int)
        }),
{
    law_sender_report_reads_back(
        sender_ssrc,
        ntp_timestamp,
        rtp_timestamp,
        packet_count,
        octet_count,
    );
    let report = sender_report(
        sender_ssrc,
        ntp_timestamp,
        rtp_timestamp,
        packet_count,
        octet_count,
    );
    assert(report[0] == 128 && report[2] == 0 && report[3] == 6);
    lemma_spelled(report, 4);
    lemma_spelled(report, 8);
    lemma_spelled(report, 12);
    lemma_spelled(report, 16);
    lemma_spelled(report, 20);
    lemma_spelled(report, 24);
}

proof fn lemma_spelled(bytes: Seq<u8>, at: int)
    ensures
        spells(bytes, at, be32_at(bytes, at) as int),
{
}

/// An NTP timestamp counts the seconds since 1900 in its upper half and the
/// fraction of a second in its lower half.
pub proof fn law_ntp_timestamps_count_from_1900(seconds: u64, nanos: u32, ntp: u64)
    requires
        call_ensures(ntp_timestamp, (seconds, nanos), ntp),
        nanos < 1_000_000_000,
        seconds + 2_208_988_800 <= u64::MAX,
    ensures
        (ntp as int / 0x1_0000_0000 - seconds - 2_208_988_800) % 0x1_0000_0000 == 0,
        (ntp as int % 0x1_0000_0000) * 1_000_000_000 <= nanos * 0x1_0000_0000,
        nanos * 0x1_0000_0000 < (ntp as int % 0x1_0000_0000 + 1) * 1_000_000_000,
{
}

} // verus!
