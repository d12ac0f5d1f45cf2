//! Network bandwidth estimation and the encoder bitrate control policy.
//!
//! Three ring buffers over a recent history window count the bytes pushed at
//! the socket, the packets they took, and the bytes the receiver confirmed.
//! The control policy is deliberately asymmetric: drop fast, climb slowly.
//!
//! Feedback is attributed back to when the packets were *sent*, using the
//! round-trip time, and throughput is measured over the time actually spent
//! transmitting rather than over the whole window, so a sender that is not
//! saturating the link is not mistaken for one that cannot go faster.

use vstd::prelude::*;

use crate::time::{before_or_same, elapsed, Duration, Instant};

verus! {

/// How many equal slices the history window is divided into.
pub const NUM_TIMESLICES: usize = 256;

/// How much recent history the estimate is averaged over, in nanoseconds.
pub const HISTORY_WINDOW_NANOS: u64 = 2_000_000_000;

/// The same window in milliseconds.
pub const HISTORY_WINDOW_MILLIS: u64 = 2_000;

/// One slice of the history window, in nanoseconds.
pub const SLICE_NANOS: u64 = 7_812_500;

/// How often the control loop may change the encoder bitrate, in nanoseconds.
pub const CONTROL_INTERVAL_NANOS: u64 = 500_000_000;

/// A 24 Mbit/s burst ceiling, divided into 10 ms bursts of 1472-byte UDP payloads.
pub const MAX_PACKETS_PER_BURST: u64 = 21;

/// The length of one burst, in milliseconds.
pub const BURST_INTERVAL_MILLIS: u64 = 10;

/// Only four fifths of the measured bandwidth are ever used.
pub const SAFETY_NUMERATOR: u64 = 4;

pub const SAFETY_DENOMINATOR: u64 = 5;

/// A climb multiplies the bitrate by 1.1.
pub const INCREASE_NUMERATOR: u64 = 11;

pub const INCREASE_DENOMINATOR: u64 = 10;

/// How many packets fit in a whole window: 200 bursts.
pub const WINDOW_CAPACITY: u64 = 4_200;

/// The sum of a sequence of counts.
pub open spec fn total(counts: Seq<u64>) -> nat
    decreases counts.len(),
{
    if counts.len() == 0 {
        0
    } else {
        total(counts.drop_last()) + counts.last() as nat
    }
}

/// `value`, limited to what a `u64` can hold.
pub open spec fn sat_u64(value: nat) -> u64 {
    if value <= u64::MAX {
        value as u64
    } else {
        u64::MAX
    }
}

/// `value`, limited to what a `u32` can hold.
pub open spec fn sat_u32(value: nat) -> u32 {
    if value <= u32::MAX {
        value as u32
    } else {
        u32::MAX
    }
}

/// How many whole slices lie between two points in time.
pub open spec fn slices_between(from: int, to: int) -> int {
    if to > from {
        (to - from) / (SLICE_NANOS as int)
    } else {
        0
    }
}

/// What a flow's history shows: `ages[a]` is the count of the slice that lies
/// `a` slices before the newest one.
pub struct FlowView {
    pub ages: Seq<u64>,
    pub head_started: int,
    pub first_sample: Option<int>,
    pub last_sample: Option<int>,
}

impl FlowView {
    /// An empty history whose newest slice starts at `now`.
    pub open spec fn empty(now: int) -> FlowView {
        FlowView {
            ages: Seq::new(NUM_TIMESLICES as nat, |a: int| 0u64),
            head_started: now,
            first_sample: None,
            last_sample: None,
        }
    }

    /// How many slices the history moves to reach `now`. A count that does not
    /// fit the machine's word clears the history like one whole window does.
    pub open spec fn steps_to(self, now: int) -> int {
        let gap = slices_between(self.head_started, now);
        if gap <= usize::MAX {
            gap
        } else {
            NUM_TIMESLICES as int
        }
    }

    /// The history rolled forward to `now`: every count grows older by the
    /// slices passed over, and the slices that became newest are empty.
    pub open spec fn advanced(self, now: int) -> FlowView {
        let steps = self.steps_to(now);
        FlowView {
            ages: Seq::new(
                self.ages.len(),
                |a: int|
                    if a < steps {
                        0u64
                    } else {
                        self.ages[a - steps]
                    },
            ),
            head_started: self.head_started + SLICE_NANOS * (if steps <= u32::MAX {
                steps
            } else {
                1
            }),
            ..self
        }
    }

    /// The age of the slice that `now` lies in: nothing for the newest slice and
    /// what follows it, and one more for every slice before it.
    pub open spec fn age_at(self, now: int) -> int {
        if now >= self.head_started {
            0
        } else {
            (self.head_started - now + SLICE_NANOS - 1) / (SLICE_NANOS as int)
        }
    }

    /// The history after `amount` was counted at `now`, in the slice that `now`
    /// lies in; an amount from before the window is left out.
    pub open spec fn accumulated(self, amount: u64, now: int) -> FlowView {
        let rolled = self.advanced(now);
        let age = rolled.age_at(now);
        FlowView {
            ages: if age < rolled.ages.len() {
                rolled.ages.update(age, sat_u64((rolled.ages[age] + amount) as nat))
            } else {
                rolled.ages
            },
            first_sample: if self.first_sample is None {
                Some(now)
            } else {
                self.first_sample
            },
            last_sample: Some(now),
            ..rolled
        }
    }

    /// Everything counted in the window.
    pub open spec fn sum(self) -> u64 {
        sat_u64(total(self.ages))
    }
}

/// The slot of a ring of slices that lies `age` slots before `head`.
spec fn slot_of(head: int, age: int) -> int {
    if age <= head {
        head - age
    } else {
        head + NUM_TIMESLICES - age
    }
}

/// How far slot `index` lies after `head`, going around the ring.
spec fn ahead_of(head: int, index: int) -> int {
    if index >= head {
        index - head
    } else {
        index + NUM_TIMESLICES - head
    }
}

/// A ring buffer of counts over `NUM_TIMESLICES` equal slices.
pub struct FlowTracker {
    history: Vec<u64>,
    /// Index of the newest slice.
    head: usize,
    head_started: Instant,
    /// When this tracker first and last saw a sample, for the overlap check.
    first_sample: Option<Instant>,
    last_sample: Option<Instant>,
}

/// The point in time of an optional instant.
pub open spec fn point(at: Option<Instant>) -> Option<int> {
    match at {
        Some(instant) => Some(instant@),
        None => None,
    }
}

impl View for FlowTracker {
    type V = FlowView;

    closed spec fn view(&self) -> FlowView {
        FlowView {
            ages: Seq::new(
                NUM_TIMESLICES as nat,
                |a: int| self.history@[slot_of(self.head as int, a)],
            ),
            head_started: self.head_started@,
            first_sample: point(self.first_sample),
            last_sample: point(self.last_sample),
        }
    }
}

impl FlowTracker {
    /// The ring holds exactly one window, and its newest slice is one of its slots.
    pub closed spec fn wf(&self) -> bool {
        &&& self.history@.len() == NUM_TIMESLICES
        &&& self.head < NUM_TIMESLICES
    }

    pub fn new(now: Instant) -> (flow: FlowTracker)
        ensures
            flow.wf(),
            flow@ == FlowView::empty(now@),
    {
        let flow = FlowTracker {
            history: vec![0; NUM_TIMESLICES],
            head: 0,
            head_started: now,
            first_sample: None,
            last_sample: None,
        };
        assert(flow@.ages =~= FlowView::empty(now@).ages);
        flow
    }

    /// Rolls the window forward to `now`, zeroing the slices passed over.
    pub fn advance_to(&mut self, now: Instant)
        requires
            old(self).wf(),
        ensures
            final(self).wf(),
            final(self)@ == old(self)@.advanced(now@),
    {
        let elapsed: u128 = now.saturating_duration_since(self.head_started).nanos;
        let gap: u128 = elapsed / SLICE_NANOS as u128;
        let slices: usize = if gap <= usize::MAX as u128 {
            gap as usize
        } else {
            NUM_TIMESLICES
        };
        assert(slices == self@.steps_to(now@));
        if slices == 0 {
            assert(self@.ages =~= self@.advanced(now@).ages);
            return;
        }
        if slices >= NUM_TIMESLICES {
            self.history = vec![0; NUM_TIMESLICES];
            self.head = 0;
        } else {
            let mut step: usize = 1;
            while step <= slices
                invariant
                    1 <= step <= slices + 1,
                    slices < NUM_TIMESLICES,
                    self.head == old(self).head,
                    self.head_started == old(self).head_started,
                    self.first_sample == old(self).first_sample,
                    self.last_sample == old(self).last_sample,
                    self.head < NUM_TIMESLICES,
                    self.history@.len() == NUM_TIMESLICES,
                    forall|i: int|
                        0 <= i < NUM_TIMESLICES ==> #[trigger] self.history@[i] == if 1
                            <= ahead_of(self.head as int, i) < step {
                            0u64
                        } else {
                            old(self).history@[i]
                        },
                decreases slices + 1 - step,
            {
                let index: usize = (self.head + step) % NUM_TIMESLICES;
                assert(ahead_of(self.head as int, index as int) == step);
                self.history.set(index, 0);
                step = step + 1;
            }
            self.head = (self.head + slices) % NUM_TIMESLICES;
        }
        let moved: u128 = if slices <= u32::MAX as usize {
            slices as u128
        } else {
            1
        };
        proof {
            assert(gap * SLICE_NANOS <= elapsed);
            assert(moved <= gap);
        }
        assert(old(self).head_started@ + SLICE_NANOS * moved <= now@);
        self.head_started = match self.head_started.checked_add(
            Duration { nanos: SLICE_NANOS as u128 * moved },
        ) {
            Some(started) => started,
            None => now,
        };
        assert(self@.ages =~= old(self)@.advanced(now@).ages);
    }

    /// Counts `amount` in the slice that `now` lies in, which may lie before the
    /// newest one. What lies before the window is not counted.
    pub fn accumulate(&mut self, amount: u64, now: Instant)
        requires
            old(self).wf(),
        ensures
            final(self).wf(),
            final(self)@ == old(self)@.accumulated(amount, now@),
    {
        self.advance_to(now);
        let ghost rolled = self@;
        let ghost age = rolled.age_at(now@);
        let behind: u128 = self.head_started.saturating_duration_since(now).nanos;
        let whole: u128 = behind / SLICE_NANOS as u128;
        let slices: u128 = if behind % SLICE_NANOS as u128 == 0 {
            whole
        } else {
            whole + 1
        };
        assert(slices == age);
        if slices < NUM_TIMESLICES as u128 {
            let slot: usize = self.slot(slices as usize);
            let counted: u64 = self.history[slot].saturating_add(amount);
            assert(rolled.ages[age] == self.history@[slot as int]);
            self.history.set(slot, counted);
            assert(self@.ages =~= rolled.ages.update(age, counted));
        }
        if self.first_sample.is_none() {
            self.first_sample = Some(now);
        }
        self.last_sample = Some(now);
    }

    /// The slot of the slice that lies `age` slices before the newest one.
    fn slot(&self, age: usize) -> (slot: usize)
        requires
            self.wf(),
            age < NUM_TIMESLICES,
        ensures
            slot < NUM_TIMESLICES,
            slot == slot_of(self.head as int, age as int),
    {
        if age <= self.head {
            self.head - age
        } else {
            self.head + NUM_TIMESLICES - age
        }
    }

    /// Everything counted in the window.
    pub fn sum(&self) -> (sum: u64)
        requires
            self.wf(),
        ensures
            sum == self@.sum(),
    {
        let mut sum: u64 = 0;
        let mut age: usize = 0;
        while age < NUM_TIMESLICES
            invariant
                age <= NUM_TIMESLICES,
                self.wf(),
                sum == sat_u64(total(self@.ages.take(age as int))),
            decreases NUM_TIMESLICES - age,
        {
            let slot: usize = self.slot(age);
            let ghost next = self@.ages.take(age + 1);
            assert(next.drop_last() =~= self@.ages.take(age as int));
            assert(next.last() == self.history@[slot as int]);
            sum = sum.saturating_add(self.history[slot]);
            age = age + 1;
        }
        assert(self@.ages.take(NUM_TIMESLICES as int) =~= self@.ages);
        sum
    }

    fn first_sample(&self) -> (at: Option<Instant>)
        ensures
            point(at) == self@.first_sample,
    {
        self.first_sample
    }

    fn last_sample(&self) -> (at: Option<Instant>)
        ensures
            point(at) == self@.last_sample,
    {
        self.last_sample
    }
}

/// What the estimator knows of the link.
pub struct EstimatorView {
    pub sent: FlowView,
    pub packets: FlowView,
    pub confirmed: FlowView,
    pub started: int,
    pub round_trip: Option<nat>,
}

/// The larger of two numbers.
pub open spec fn larger(a: int, b: int) -> int {
    if a >= b {
        a
    } else {
        b
    }
}

/// The smaller of two numbers.
pub open spec fn smaller(a: int, b: int) -> int {
    if a <= b {
        a
    } else {
        b
    }
}

impl EstimatorView {
    /// An estimator that has seen nothing yet.
    pub open spec fn fresh(now: int) -> EstimatorView {
        EstimatorView {
            sent: FlowView::empty(now),
            packets: FlowView::empty(now),
            confirmed: FlowView::empty(now),
            started: now,
            round_trip: None,
        }
    }

    /// When bytes confirmed at `now` were sent: one round trip ago.
    pub open spec fn sent_at(self, now: int) -> int {
        match self.round_trip {
            Some(span) => before_or_same(now, span),
            None => now,
        }
    }

    /// All three histories rolled forward to `now`.
    pub open spec fn advanced(self, now: int) -> EstimatorView {
        EstimatorView {
            sent: self.sent.advanced(now),
            packets: self.packets.advanced(now),
            confirmed: self.confirmed.advanced(now),
            ..self
        }
    }

    /// Whether a full window has gone by since the estimator was made.
    pub open spec fn window_elapsed(self, now: int) -> bool {
        elapsed(self.started, now) >= HISTORY_WINDOW_NANOS
    }

    /// Whether the sending and confirming histories, as far as they lie in the
    /// window, have at least half a window in common.
    pub open spec fn histories_overlap(self, now: int) -> bool {
        match (
            self.sent.first_sample,
            self.sent.last_sample,
            self.confirmed.first_sample,
            self.confirmed.last_sample,
        ) {
            (Some(sent_first), Some(sent_last), Some(conf_first), Some(conf_last)) => {
                let window_start = before_or_same(now, HISTORY_WINDOW_NANOS as nat);
                let start = larger(larger(sent_first, conf_first), window_start);
                let end = smaller(sent_last, conf_last);
                end - start >= HISTORY_WINDOW_NANOS / 2
            },
            _ => false,
        }
    }

    /// The part of the window spent transmitting, in milliseconds: its share is
    /// that of the packets sent in what a saturated window could carry.
    pub open spec fn transmit_ms(self) -> int {
        let sent_packets = larger(smaller(self.packets.sum() as int, WINDOW_CAPACITY as int), 1);
        larger(HISTORY_WINDOW_MILLIS * sent_packets / WINDOW_CAPACITY as int, 1)
    }

    /// Bits per second confirmed over the time spent transmitting.
    pub open spec fn throughput(self) -> u32 {
        sat_u32(
            (sat_u64((self.confirmed.sum() * 8_000) as nat) as int / self.transmit_ms()) as nat,
        )
    }

    /// The estimate at `now`, with all histories already rolled forward to it.
    pub open spec fn estimate(self, now: int) -> Option<u32> {
        if self.window_elapsed(now) && self.confirmed.sum() != 0 && self.histories_overlap(now) {
            Some(self.throughput())
        } else {
            None
        }
    }
}

/// The length of an optional span.
pub open spec fn span_of(span: Option<Duration>) -> Option<nat> {
    match span {
        Some(duration) => Some(duration@),
        None => None,
    }
}

/// Estimates what the link carries from what was sent and what was confirmed.
pub struct BandwidthEstimator {
    sent: FlowTracker,
    packets: FlowTracker,
    confirmed: FlowTracker,
    started: Instant,
    round_trip: Option<Duration>,
}

impl View for BandwidthEstimator {
    type V = EstimatorView;

    closed spec fn view(&self) -> EstimatorView {
        EstimatorView {
            sent: self.sent@,
            packets: self.packets@,
            confirmed: self.confirmed@,
            started: self.started@,
            round_trip: span_of(self.round_trip),
        }
    }
}

impl BandwidthEstimator {
    pub closed spec fn wf(&self) -> bool {
        &&& self.sent.wf()
        &&& self.packets.wf()
        &&& self.confirmed.wf()
    }

    pub fn new(now: Instant) -> (estimator: BandwidthEstimator)
        ensures
            estimator.wf(),
            estimator@ == EstimatorView::fresh(now@),
    {
        BandwidthEstimator {
            sent: FlowTracker::new(now),
            packets: FlowTracker::new(now),
            confirmed: FlowTracker::new(now),
            started: now,
            round_trip: None,
        }
    }

    /// `packets` is what the burst cost; the byte count sizes the flow and the
    /// packet count sizes the time spent transmitting.
    pub fn on_burst_sent(&mut self, bytes: u64, packets: u64, now: Instant)
        requires
            old(self).wf(),
        ensures
            final(self).wf(),
            final(self)@ == (EstimatorView {
                sent: old(self)@.sent.accumulated(bytes, now@),
                packets: old(self)@.packets.accumulated(packets, now@),
                ..old(self)@
            }),
    {
        self.sent.accumulate(bytes, now);
        self.packets.accumulate(packets, now);
    }

    /// Records the receiver's confirmation, attributed back to when those
    /// bytes were sent - one round trip ago.
    pub fn on_bytes_confirmed(&mut self, bytes: u64, now: Instant)
        requires
            old(self).wf(),
        ensures
            final(self).wf(),
            final(self)@ == (EstimatorView {
                confirmed: old(self)@.confirmed.accumulated(bytes, old(self)@.sent_at(now@)),
                ..old(self)@
            }),
    {
        let sent_at = match self.round_trip {
            Some(span) => match now.checked_sub(span) {
                Some(earlier) => earlier,
                None => now,
            },
            None => now,
        };
        self.confirmed.accumulate(bytes, sent_at);
    }

    /// Whether the sending and confirming histories cover enough common time
    /// to compare: at least half the history window.
    fn histories_overlap(&self, now: Instant) -> (overlap: bool)
        ensures
            overlap == self@.histories_overlap(now@),
    {
        let (sent_first, sent_last) = match (self.sent.first_sample(), self.sent.last_sample()) {
            (Some(first), Some(last)) => (first, last),
            _ => {
                return false;
            },
        };
        let (conf_first, conf_last) = match (
            self.confirmed.first_sample(),
            self.confirmed.last_sample(),
        ) {
            (Some(first), Some(last)) => (first, last),
            _ => {
                return false;
            },
        };
        // Only the part of each history still inside the window counts.
        let window_start = match now.checked_sub(Duration::from_nanos(HISTORY_WINDOW_NANOS)) {
            Some(earlier) => earlier,
            None => now,
        };
        let mut start = if sent_first.nanos >= conf_first.nanos {
            sent_first
        } else {
            conf_first
        };
        if start.nanos < window_start.nanos {
            start = window_start;
        }
        let end = if sent_last.nanos <= conf_last.nanos {
            sent_last
        } else {
            conf_last
        };
        if end.nanos <= start.nanos {
            return false;
        }
        end.saturating_duration_since(start).nanos >= (HISTORY_WINDOW_NANOS / 2) as u128
    }

    pub fn on_round_trip(&mut self, span: Duration)
        requires
            old(self).wf(),
        ensures
            final(self).wf(),
            final(self)@ == (EstimatorView { round_trip: Some(span@), ..old(self)@ }),
    {
        self.round_trip = Some(span);
    }

    /// Bits per second the receiver is confirming, or `None` until a full
    /// window has gone by: a short history gives no number rather than a wrong
    /// one.
    pub fn estimate_bps(&mut self, now: Instant) -> (estimate: Option<u32>)
        requires
            old(self).wf(),
        ensures
            final(self).wf(),
            final(self)@ == if old(self)@.window_elapsed(now@) {
                old(self)@.advanced(now@)
            } else {
                old(self)@
            },
            estimate == final(self)@.estimate(now@),
    {
        if now.saturating_duration_since(self.started).nanos < HISTORY_WINDOW_NANOS as u128 {
            return None;
        }
        self.sent.advance_to(now);
        self.packets.advance_to(now);
        self.confirmed.advance_to(now);
        let confirmed: u64 = self.confirmed.sum();
        if confirmed == 0 {
            return None;
        }
        // Without enough common history, a tick where acknowledgements briefly
        // lag the sending would read as a collapsed link.
        if !self.histories_overlap(now) {
            return None;
        }
        // Only the fraction of the window actually spent transmitting counts,
        // or an idle sender looks like a slow link.
        let counted: u64 = self.packets.sum();
        let sent_packets: u64 = if counted > WINDOW_CAPACITY {
            WINDOW_CAPACITY
        } else if counted < 1 {
            1
        } else {
            counted
        };
        let share: u64 = HISTORY_WINDOW_MILLIS * sent_packets / WINDOW_CAPACITY;
        let transmit_ms: u64 = if share < 1 {
            1
        } else {
            share
        };
        let bits: u64 = match confirmed.checked_mul(8_000) {
            Some(bits) => bits,
            None => u64::MAX,
        };
        Some(clamp_to_u32(bits / transmit_ms))
    }
}

fn clamp_to_u32(value: u64) -> (clamped: u32)
    ensures
        clamped == sat_u32(value as nat),
{
    if value <= u32::MAX as u64 {
        value as u32
    } else {
        u32::MAX
    }
}

/// `value` times a fraction, rounded down and limited to what a `u32` can hold.
pub open spec fn scaled(value: u32, numerator: u64, denominator: u64) -> u32 {
    sat_u32((value * numerator / denominator as int) as nat)
}

fn scale(value: u32, numerator: u64, denominator: u64) -> (result: u32)
    requires
        value * numerator <= u64::MAX,
        denominator > 0,
    ensures
        result == scaled(value, numerator, denominator),
{
    clamp_to_u32(value as u64 * numerator / denominator)
}

/// What the policy aims for before the negotiated range is applied: below the
/// current bitrate, straight down to what the link carries; otherwise one step up.
pub open spec fn aimed_bitrate(current_bps: u32, estimate_bps: u32) -> u32 {
    let usable = scaled(estimate_bps, SAFETY_NUMERATOR, SAFETY_DENOMINATOR);
    if usable < current_bps {
        usable
    } else {
        scaled(current_bps, INCREASE_NUMERATOR, INCREASE_DENOMINATOR)
    }
}

/// `value` moved into the range from `min_bps` to `max_bps`; a floor above the
/// ceiling gives way to it.
pub open spec fn in_range(value: u32, min_bps: u32, max_bps: u32) -> u32 {
    if value > max_bps {
        max_bps
    } else if value < min_bps {
        smaller(min_bps as int, max_bps as int) as u32
    } else {
        value
    }
}

/// The next encoder bitrate given the measured throughput: below target, drop
/// straight to what the link is carrying; at or above it, edge up. `None`
/// leaves the bitrate alone, as a reduction of at most a twentieth does.
pub open spec fn next_bitrate_spec(
    current_bps: u32,
    estimate_bps: u32,
    min_bps: u32,
    max_bps: u32,
) -> Option<u32> {
    let target = in_range(aimed_bitrate(current_bps, estimate_bps), min_bps, max_bps);
    if target > current_bps || current_bps - target > current_bps as int / 20 {
        Some(target)
    } else {
        None
    }
}

/// The next encoder bitrate given the measured throughput: below target, drop
/// straight to what the link is carrying; at or above it, edge up. `None`
/// leaves the bitrate alone.
pub fn next_bitrate(
    current_bps: u32,
    estimate_bps: u32,
    min_bps: u32,
    max_bps: u32,
) -> (next: Option<u32>)
    ensures
        next == next_bitrate_spec(current_bps, estimate_bps, min_bps, max_bps),
{
    let usable: u32 = scale(estimate_bps, SAFETY_NUMERATOR, SAFETY_DENOMINATOR);
    let aimed: u32 = if usable < current_bps {
        usable
    } else {
        scale(current_bps, INCREASE_NUMERATOR, INCREASE_DENOMINATOR)
    };
    let floor: u32 = if min_bps < max_bps {
        min_bps
    } else {
        max_bps
    };
    let target: u32 = if aimed > max_bps {
        max_bps
    } else if aimed < floor {
        floor
    } else {
        aimed
    };
    // Ignore reductions too small to be worth reconfiguring the encoder for. A
    // climb is always taken, also where the ceiling cuts it short.
    if target > current_bps || current_bps - target > current_bps / 20 {
        Some(target)
    } else {
        None
    }
}

/// Counts that are all zero add up to zero.
proof fn lemma_total_of_zeros(counts: Seq<u64>)
    requires
        forall|i: int| 0 <= i < counts.len() ==> counts[i] == 0,
    ensures
        total(counts) == 0,
    decreases counts.len(),
{
    if counts.len() > 0 {
        lemma_total_of_zeros(counts.drop_last());
    }
}

/// After rolling forward to `now`, the newest slice is the one that `now` lies in.
pub proof fn law_window_reaches_now(flow: FlowView, now: int)
    requires
        flow.head_started <= now,
        slices_between(flow.head_started, now) <= u32::MAX,
    ensures
        flow.advanced(now).head_started <= now,
        now < flow.advanced(now).head_started + SLICE_NANOS,
{
}

/// Rolling forward in two steps shows the same history as rolling forward in one.
pub proof fn law_rolling_is_path_independent(flow: FlowView, first: int, second: int)
    requires
        first <= second,
        slices_between(flow.head_started, second) <= u32::MAX,
    ensures
        flow.advanced(first).advanced(second) == flow.advanced(second),
{
    let steps = slices_between(flow.head_started, second);
    let once = flow.advanced(first);
    assert(once.steps_to(second) + flow.steps_to(first) == steps);
    assert(once.advanced(second).ages =~= flow.advanced(second).ages);
}

/// What was counted ages out: once a whole window has gone by since the newest
/// slice started, nothing is left in the history.
pub proof fn law_old_samples_age_out(flow: FlowView, now: int)
    requires
        flow.ages.len() == NUM_TIMESLICES,
        now >= flow.head_started + HISTORY_WINDOW_NANOS,
    ensures
        flow.advanced(now).sum() == 0,
{
    lemma_total_of_zeros(flow.advanced(now).ages);
}

/// The histories of every well-formed estimator span exactly one window.
pub proof fn law_histories_span_one_window(estimator: &BandwidthEstimator)
    requires
        estimator.wf(),
    ensures
        estimator@.sent.ages.len() == NUM_TIMESLICES,
        estimator@.packets.ages.len() == NUM_TIMESLICES,
        estimator@.confirmed.ages.len() == NUM_TIMESLICES,
{
}

/// A link on which every confirmation has aged out gives no estimate.
pub proof fn law_no_estimate_from_aged_out_feedback(link: EstimatorView, now: int)
    requires
        link.confirmed.ages.len() == NUM_TIMESLICES,
        now >= link.confirmed.head_started + HISTORY_WINDOW_NANOS,
    ensures
        link.advanced(now).estimate(now) is None,
{
    law_old_samples_age_out(link.confirmed, now);
}

/// Silence gives no estimate: sending and waiting never make one up without a
/// confirmation.
pub proof fn law_silence_yields_no_estimate(
    link: EstimatorView,
    bytes: u64,
    packets: u64,
    sent: int,
    now: int,
)
    requires
        link.confirmed.first_sample is None,
    ensures
        link.advanced(now).estimate(now) is None,
        (EstimatorView {
            sent: link.sent.accumulated(bytes, sent),
            packets: link.packets.accumulated(packets, sent),
            ..link
        }).advanced(now).estimate(now) is None,
{
}

/// No estimate is given before a full window has gone by.
pub proof fn law_no_estimate_before_a_full_window(link: EstimatorView, now: int)
    requires
        elapsed(link.started, now) < HISTORY_WINDOW_NANOS,
    ensures
        link.estimate(now) is None,
{
}

/// Feedback counts for the moment its bytes were sent: with a round trip of
/// `span`, bytes confirmed at `now` go into the slice of the confirmed history
/// that `now - span` lies in. Where the history has been rolled past that slice
/// it stays where it is. Every other slice keeps what it holds, and bytes from
/// before the window are left out. Leaves out feedback for a sending over a
/// year after the newest slice.
pub proof fn law_feedback_is_attributed_to_its_sending(
    link: EstimatorView,
    bytes: u64,
    span: nat,
    now: int,
)
    requires
        link.round_trip == Some(span),
        now - span >= i128::MIN,
        link.confirmed.ages.len() == NUM_TIMESLICES,
        slices_between(link.confirmed.head_started, now - span) <= u32::MAX,
    ensures
        ({
            let sent = now - span;
            let before = link.confirmed;
            let rolled = before.advanced(sent);
            let after = before.accumulated(bytes, link.sent_at(now));
            let age = rolled.age_at(sent);
            // The slice of that age covers the sending.
            &&& rolled.head_started - SLICE_NANOS * age <= sent
            &&& sent < rolled.head_started - SLICE_NANOS * age + SLICE_NANOS
            &&& sent < before.head_started ==> rolled == before && age > 0
            &&& sent >= before.head_started ==> age == 0
            &&& after.head_started == rolled.head_started
            &&& after.ages.len() == NUM_TIMESLICES
            &&& forall|a: int|
                0 <= a < NUM_TIMESLICES ==> #[trigger] after.ages[a] == if a == age {
                    sat_u64((rolled.ages[a] + bytes) as nat)
                } else {
                    rolled.ages[a]
                }
        }),
{
    let before = link.confirmed;
    if now - span < before.head_started {
        assert(before.advanced(now - span).ages =~= before.ages);
    }
}

/// An idle sender is not mistaken for a slow link: the same confirmed bytes
/// over fewer packets never read as less throughput.
pub proof fn law_idle_sender_is_not_a_slow_link(idle: EstimatorView, busy: EstimatorView)
    requires
        idle.confirmed.sum() == busy.confirmed.sum(),
        idle.packets.sum() <= busy.packets.sum(),
    ensures
        idle.throughput() >= busy.throughput(),
{
    let bits = sat_u64((idle.confirmed.sum() * 8_000) as nat) as int;
    let short = idle.transmit_ms();
    let long = busy.transmit_ms();
    assert(short <= long);
    vstd::arithmetic::div_mod::lemma_div_is_ordered_by_denominator(bits, short, long);
}

/// The bitrate stays inside the negotiated range.
pub proof fn law_bitrate_stays_in_range(
    current_bps: u32,
    estimate_bps: u32,
    min_bps: u32,
    max_bps: u32,
)
    ensures
        next_bitrate_spec(current_bps, estimate_bps, min_bps, max_bps) matches Some(next) ==> {
            &&& next <= max_bps
            &&& min_bps <= max_bps ==> next >= min_bps
        },
{
}

/// The dead band never holds back a climb: with headroom below the ceiling, the
/// bitrate goes up by a tenth, further where the floor is higher, and no further
/// than the ceiling. Below ten bits per second a tenth rounds down to nothing.
pub proof fn law_climb_clears_the_dead_band(
    current_bps: u32,
    estimate_bps: u32,
    min_bps: u32,
    max_bps: u32,
)
    requires
        current_bps >= 10,
        scaled(estimate_bps, SAFETY_NUMERATOR, SAFETY_DENOMINATOR) >= current_bps,
        max_bps > current_bps,
    ensures
        next_bitrate_spec(current_bps, estimate_bps, min_bps, max_bps) == Some(
            smaller(larger(current_bps * 11 / 10, min_bps as int), max_bps as int) as u32,
        ),
{
}

/// Only a reduction is ever held back, and only one of at most a twentieth.
pub proof fn law_only_small_reductions_are_held_back(
    current_bps: u32,
    estimate_bps: u32,
    min_bps: u32,
    max_bps: u32,
)
    requires
        next_bitrate_spec(current_bps, estimate_bps, min_bps, max_bps) is None,
    ensures
        ({
            let target = in_range(aimed_bitrate(current_bps, estimate_bps), min_bps, max_bps);
            target <= current_bps && current_bps - target <= current_bps as int / 20
        }),
{
}

/// A drop in throughput cuts the bitrate at once to four fifths of what the
/// link carries, wherever the range allows that and it is worth a change.
pub proof fn law_drop_is_immediate(
    current_bps: u32,
    estimate_bps: u32,
    min_bps: u32,
    max_bps: u32,
)
    requires
        current_bps - estimate_bps * 4 / 5 > current_bps as int / 20,
        min_bps <= estimate_bps * 4 / 5 <= max_bps,
    ensures
        next_bitrate_spec(current_bps, estimate_bps, min_bps, max_bps) == Some(
            (estimate_bps * 4 / 5) as u32,
        ),
{
}

/// An amount that was counted, and when.
pub struct Sample {
    pub amount: u64,
    pub at: int,
}

/// The slot that a point in time lies in, counted in slices from `started` on.
pub open spec fn slot_at(started: int, at: int) -> int {
    (at - started) / 7_812_500
}

/// What some samples from the slots `from` to `to` add up to.
pub open spec fn counted(samples: Seq<Sample>, started: int, from: int, to: int) -> nat
    decreases samples.len(),
{
    if samples.len() == 0 {
        0
    } else {
        let before = counted(samples.drop_last(), started, from, to);
        if from <= slot_at(started, samples.last().at) <= to {
            before + samples.last().amount as nat
        } else {
            before
        }
    }
}

/// Whether a history shows some samples: each slice holds what was counted in
/// its slot, and no sample is newer than the newest slice.
pub open spec fn shows(flow: FlowView, samples: Seq<Sample>, started: int) -> bool {
    let head = slot_at(started, flow.head_started);
    &&& flow.head_started == started + SLICE_NANOS * head
    &&& flow.ages.len() == NUM_TIMESLICES
    &&& forall|a: int|
        0 <= a < NUM_TIMESLICES ==> #[trigger] flow.ages[a] == sat_u64(
            counted(samples, started, head - a, head - a),
        )
    &&& forall|i: int|
        0 <= i < samples.len() ==> slot_at(started, (#[trigger] samples[i]).at) <= head
}

/// No sample is counted in slots that all lie past the samples.
proof fn lemma_nothing_counted_ahead(samples: Seq<Sample>, started: int, from: int, to: int)
    requires
        forall|i: int|
            0 <= i < samples.len() ==> slot_at(started, (#[trigger] samples[i]).at) < from,
    ensures
        counted(samples, started, from, to) == 0,
    decreases samples.len(),
{
    if samples.len() > 0 {
        let rest = samples.drop_last();
        assert forall|i: int| 0 <= i < rest.len() implies slot_at(
            started,
            (#[trigger] rest[i]).at,
        ) < from by {
            assert(rest[i] == samples[i]);
        }
        lemma_nothing_counted_ahead(rest, started, from, to);
        assert(samples.last() == samples[samples.len() - 1]);
    }
}

/// What was counted in a range of slots is what was counted in its oldest one
/// and in the others.
proof fn lemma_counted_splits(samples: Seq<Sample>, started: int, from: int, to: int)
    requires
        from <= to,
    ensures
        counted(samples, started, from, to) == counted(samples, started, from + 1, to) + counted(
            samples,
            started,
            from,
            from,
        ),
    decreases samples.len(),
{
    if samples.len() > 0 {
        lemma_counted_splits(samples.drop_last(), started, from, to);
    }
}

/// Rolling a history forward keeps what it shows.
proof fn lemma_rolling_shows(flow: FlowView, samples: Seq<Sample>, started: int, now: int)
    requires
        shows(flow, samples, started),
        slices_between(flow.head_started, now) <= u32::MAX,
    ensures
        shows(flow.advanced(now), samples, started),
        slot_at(started, flow.advanced(now).head_started) == larger(
            slot_at(started, flow.head_started),
            slot_at(started, now),
        ),
{
    let head = slot_at(started, flow.head_started);
    let steps = flow.steps_to(now);
    let rolled = flow.advanced(now);
    assert(steps == larger(0, slot_at(started, now) - head));
    assert(rolled.head_started == started + SLICE_NANOS * (head + steps));
    assert(slot_at(started, rolled.head_started) == head + steps);
    assert forall|a: int| 0 <= a < NUM_TIMESLICES implies #[trigger] rolled.ages[a] == sat_u64(
        counted(samples, started, head + steps - a, head + steps - a),
    ) by {
        if a < steps {
            lemma_nothing_counted_ahead(
                samples,
                started,
                head + steps - a,
                head + steps - a,
            );
        } else {
            assert(flow.ages[a - steps] == sat_u64(
                counted(samples, started, head - (a - steps), head - (a - steps)),
            ));
        }
    }
}

/// Counting an amount adds a sample to what a history shows.
proof fn lemma_counting_shows(
    flow: FlowView,
    samples: Seq<Sample>,
    started: int,
    amount: u64,
    at: int,
)
    requires
        shows(flow, samples, started),
        slices_between(flow.head_started, at) <= u32::MAX,
    ensures
        shows(flow.accumulated(amount, at), samples.push(Sample { amount, at }), started),
{
    let rolled = flow.advanced(at);
    let after = flow.accumulated(amount, at);
    let more = samples.push(Sample { amount, at });
    let head = slot_at(started, rolled.head_started);
    lemma_rolling_shows(flow, samples, started, at);
    let age = rolled.age_at(at);
    assert(age == head - slot_at(started, at));
    assert(more.drop_last() =~= samples);
    assert forall|a: int| 0 <= a < NUM_TIMESLICES implies #[trigger] after.ages[a] == sat_u64(
        counted(more, started, head - a, head - a),
    ) by {
        assert(rolled.ages[a] == sat_u64(counted(samples, started, head - a, head - a)));
    }
    assert forall|i: int| 0 <= i < more.len() implies slot_at(started, (#[trigger] more[i]).at)
        <= head by {
        if i < samples.len() {
            assert(more[i] == samples[i]);
        }
    }
}

/// A history that shows some samples adds up to those of its window.
proof fn lemma_sum_of_window(flow: FlowView, samples: Seq<Sample>, started: int, n: int)
    requires
        shows(flow, samples, started),
        0 <= n <= NUM_TIMESLICES,
    ensures
        ({
            let head = slot_at(started, flow.head_started);
            sat_u64(total(flow.ages.take(n))) == sat_u64(
                counted(samples, started, head - n + 1, head),
            )
        }),
    decreases n,
{
    let head = slot_at(started, flow.head_started);
    if n > 0 {
        lemma_sum_of_window(flow, samples, started, n - 1);
        assert(flow.ages.take(n).drop_last() =~= flow.ages.take(n - 1));
        lemma_counted_splits(samples, started, head - n + 1, head);
        assert(flow.ages[n - 1] == sat_u64(
            counted(samples, started, head - (n - 1), head - (n - 1)),
        ));
    } else {
        lemma_none_in_no_slots(samples, started, head + 1, head);
        assert(flow.ages.take(0) =~= Seq::empty());
    }
}

proof fn lemma_none_in_no_slots(samples: Seq<Sample>, started: int, from: int, to: int)
    requires
        from > to,
    ensures
        counted(samples, started, from, to) == 0,
    decreases samples.len(),
{
    if samples.len() > 0 {
        lemma_none_in_no_slots(samples.drop_last(), started, from, to);
    }
}

/// A call of an estimator.
pub enum LinkEvent {
    /// A burst of bytes was sent, in so many packets.
    Sent(u64, u64, int),
    /// Bytes were confirmed.
    Confirmed(u64, int),
    /// A round trip was measured.
    RoundTrip(nat),
    /// The estimate was asked for.
    Asked(int),
}

/// An estimator made at `started`, after some calls.
pub open spec fn link_after(started: int, events: Seq<LinkEvent>) -> EstimatorView
    decreases events.len(),
{
    if events.len() == 0 {
        EstimatorView::fresh(started)
    } else {
        let link = link_after(started, events.drop_last());
        match events.last() {
            LinkEvent::Sent(bytes, packets, at) => EstimatorView {
                sent: link.sent.accumulated(bytes, at),
                packets: link.packets.accumulated(packets, at),
                ..link
            },
            LinkEvent::Confirmed(bytes, at) => EstimatorView {
                confirmed: link.confirmed.accumulated(bytes, link.sent_at(at)),
                ..link
            },
            LinkEvent::RoundTrip(span) => EstimatorView { round_trip: Some(span), ..link },
            LinkEvent::Asked(at) => if link.window_elapsed(at) {
                link.advanced(at)
            } else {
                link
            },
        }
    }
}

/// The packets that were sent, each burst when it was sent.
pub open spec fn packet_samples(events: Seq<LinkEvent>) -> Seq<Sample>
    decreases events.len(),
{
    if events.len() == 0 {
        Seq::empty()
    } else {
        let before = packet_samples(events.drop_last());
        match events.last() {
            LinkEvent::Sent(_, packets, at) => before.push(Sample { amount: packets, at }),
            _ => before,
        }
    }
}

/// The round trip that was measured last, if one was.
pub open spec fn last_round_trip(events: Seq<LinkEvent>) -> Option<nat>
    decreases events.len(),
{
    if events.len() == 0 {
        None
    } else {
        match events.last() {
            LinkEvent::RoundTrip(span) => Some(span),
            _ => last_round_trip(events.drop_last()),
        }
    }
}

/// When bytes that are confirmed at `at`, after some calls, were sent: the round
/// trip earlier, as far as one was known and the clock reaches back.
pub open spec fn sent_when(events: Seq<LinkEvent>, at: int) -> int {
    match last_round_trip(events) {
        Some(span) => if at - span >= i128::MIN {
            at - span
        } else {
            at
        },
        None => at,
    }
}

/// The bytes that were confirmed, each time with when they were sent.
pub open spec fn confirmed_samples(events: Seq<LinkEvent>) -> Seq<Sample>
    decreases events.len(),
{
    if events.len() == 0 {
        Seq::empty()
    } else {
        let before = confirmed_samples(events.drop_last());
        match events.last() {
            LinkEvent::Confirmed(bytes, at) => before.push(
                Sample { amount: bytes, at: sent_when(events.drop_last(), at) },
            ),
            _ => before,
        }
    }
}

/// Whether two runs of samples go side by side for a second of the last two:
/// each end lies that far after each beginning, and after that of the window.
pub open spec fn side_by_side(sent: Seq<Sample>, confirmed: Seq<Sample>, now: int) -> bool {
    let second: int = 1_000_000_000;
    &&& sent.len() > 0
    &&& confirmed.len() > 0
    &&& sent.last().at - sent[0].at >= second
    &&& sent.last().at - confirmed[0].at >= second
    &&& sent.last().at - now >= -second
    &&& confirmed.last().at - sent[0].at >= second
    &&& confirmed.last().at - confirmed[0].at >= second
    &&& confirmed.last().at - now >= -second
}

/// Whether no history is left alone for more than `u32::MAX` slices, which is
/// over a year, before a call rolls it forward.
pub open spec fn kept_up(started: int, events: Seq<LinkEvent>) -> bool
    decreases events.len(),
{
    if events.len() == 0 {
        true
    } else {
        let link = link_after(started, events.drop_last());
        &&& kept_up(started, events.drop_last())
        &&& match events.last() {
            LinkEvent::Sent(_, _, at) => slices_between(link.packets.head_started, at) <= u32::MAX,
            LinkEvent::Confirmed(_, at) => slices_between(
                link.confirmed.head_started,
                link.sent_at(at),
            ) <= u32::MAX,
            LinkEvent::RoundTrip(_) => true,
            LinkEvent::Asked(at) => {
                &&& slices_between(link.packets.head_started, at) <= u32::MAX
                &&& slices_between(link.confirmed.head_started, at) <= u32::MAX
            },
        }
    }
}

/// Whether no call was made after `now`.
pub open spec fn none_after(events: Seq<LinkEvent>, now: int) -> bool {
    forall|i: int|
        0 <= i < events.len() ==> match #[trigger] events[i] {
            LinkEvent::Sent(_, _, at) => at <= now,
            LinkEvent::Confirmed(_, at) => at <= now,
            LinkEvent::RoundTrip(_) => true,
            LinkEvent::Asked(at) => at <= now,
        }
}

/// Whether a history has seen some samples, from the first of them to the last.
pub open spec fn seen(flow: FlowView, samples: Seq<Sample>) -> bool {
    if samples.len() == 0 {
        flow.first_sample is None && flow.last_sample is None
    } else {
        flow.first_sample == Some(samples[0].at) && flow.last_sample == Some(samples.last().at)
    }
}

/// Whatever is called in whatever order, the histories show exactly the samples,
/// each in the slot of its own moment, and are never rolled past the last call.
proof fn lemma_link_shows(started: int, events: Seq<LinkEvent>, now: int)
    requires
        started <= now,
        kept_up(started, events),
        none_after(events, now),
    ensures
        ({
            let link = link_after(started, events);
            &&& shows(link.packets, packet_samples(events), started)
            &&& shows(link.confirmed, confirmed_samples(events), started)
            &&& slot_at(started, link.packets.head_started) <= slot_at(started, now)
            &&& slot_at(started, link.confirmed.head_started) <= slot_at(started, now)
            &&& link.started == started
            &&& link.round_trip == last_round_trip(events)
            &&& seen(link.sent, packet_samples(events))
            &&& seen(link.confirmed, confirmed_samples(events))
        }),
    decreases events.len(),
{
    if events.len() > 0 {
        let rest = events.drop_last();
        assert forall|i: int| 0 <= i < rest.len() implies match #[trigger] rest[i] {
            LinkEvent::Sent(_, _, at) => at <= now,
            LinkEvent::Confirmed(_, at) => at <= now,
            LinkEvent::RoundTrip(_) => true,
            LinkEvent::Asked(at) => at <= now,
        } by {
            assert(rest[i] == events[i]);
        }
        lemma_link_shows(started, rest, now);
        let link = link_after(started, rest);
        assert(events.last() == events[events.len() - 1]);
        match events.last() {
            LinkEvent::Sent(bytes, packets, at) => {
                lemma_rolling_shows(link.packets, packet_samples(rest), started, at);
                lemma_counting_shows(link.packets, packet_samples(rest), started, packets, at);
            },
            LinkEvent::Confirmed(bytes, at) => {
                let sent = link.sent_at(at);
                let samples = confirmed_samples(rest);
                lemma_rolling_shows(link.confirmed, samples, started, sent);
                lemma_counting_shows(link.confirmed, samples, started, bytes, sent);
            },
            LinkEvent::RoundTrip(_) => {},
            LinkEvent::Asked(at) => {
                lemma_rolling_shows(link.packets, packet_samples(rest), started, at);
                lemma_rolling_shows(
                    link.confirmed,
                    confirmed_samples(rest),
                    started,
                    at,
                );
            },
        }
    } else {
        let fresh = FlowView::empty(started);
        assert(slot_at(started, started) == 0);
        assert(shows(fresh, Seq::empty(), started));
    }
}

/// Whether `estimate` is what some calls of an estimator made at `started` come
/// to at `now`. It takes a full window since the start, bytes that were confirmed
/// in it, and a second of it for which sending and confirming go side by side.
/// The bits are told over the share of two seconds that the packets take of the
/// 4200 that fit.
pub open spec fn comes_to(
    started: int,
    events: Seq<LinkEvent>,
    now: int,
    estimate: Option<u32>,
) -> bool {
    let last = slot_at(started, now);
    let bytes = counted(confirmed_samples(events), started, last - 255, last);
    let packets = counted(packet_samples(events), started, last - 255, last);
    let capped = if packets > 4_200 {
        4_200
    } else {
        packets
    };
    let millis = 2_000 * capped / 4_200;
    let bits = 8_000 * bytes;
    let whole = (if bits > u64::MAX {
        u64::MAX as nat
    } else {
        bits
    }) / (if millis == 0 {
        1
    } else {
        millis
    });
    &&& estimate is Some <==> now - started >= 2_000_000_000 && bytes > 0 && side_by_side(
        packet_samples(events),
        confirmed_samples(events),
        now,
    )
    &&& estimate matches Some(bps) ==> bps >= 4 && bps == if whole > u32::MAX {
        u32::MAX as nat
    } else {
        whole
    }
}

/// The estimate is a function of what was recorded for the last window: of the
/// bytes confirmed and the packets sent in the slot of `now` and the 255 before
/// it, each counted at the moment of its sending. Neither the order of the calls
/// nor earlier estimates matter. Leaves out calls that come over a year after
/// the one before.
pub proof fn law_the_estimate_follows_from_the_window(
    started: int,
    events: Seq<LinkEvent>,
    now: int,
)
    requires
        i128::MIN <= started <= now,
        none_after(events, now),
        kept_up(started, events.push(LinkEvent::Asked(now))),
    ensures
        comes_to(
            started,
            events,
            now,
            link_after(started, events.push(LinkEvent::Asked(now))).estimate(now),
        ),
{
    let asked = events.push(LinkEvent::Asked(now));
    assert(asked.drop_last() =~= events);
    let before = link_after(started, events);
    let after = link_after(started, asked);
    lemma_link_shows(started, events, now);
    if before.window_elapsed(now) {
        let last = slot_at(started, now);
        let confirmed = confirmed_samples(events);
        let packets = packet_samples(events);
        lemma_rolling_shows(before.confirmed, confirmed, started, now);
        lemma_rolling_shows(before.packets, packets, started, now);
        lemma_sum_of_window(after.confirmed, confirmed, started, NUM_TIMESLICES as int);
        lemma_sum_of_window(after.packets, packets, started, NUM_TIMESLICES as int);
        assert(after.confirmed.ages.take(NUM_TIMESLICES as int) =~= after.confirmed.ages);
        assert(after.packets.ages.take(NUM_TIMESLICES as int) =~= after.packets.ages);
        let bytes = counted(confirmed, started, last - 255, last);
        let bits = sat_u64(8_000 * bytes) as int;
        let share = after.transmit_ms();
        assert(1 <= share <= 2_000);
        assert(after.histories_overlap(now) == side_by_side(packets, confirmed, now));
        if bytes > 0 {
            assert(bits >= 8_000);
            assert(bits / share >= 4) by (nonlinear_arith)
                requires
                    bits >= 8_000,
                    1 <= share <= 2_000,
            ;
        }
    }
}

/// What an estimator tells is what its calls come to, and asking is a call too.
pub proof fn law_estimates_are_what_the_calls_come_to(
    link: &mut BandwidthEstimator,
    started: int,
    events: Seq<LinkEvent>,
    now: Instant,
    estimate: Option<u32>,
)
    requires
        call_ensures(BandwidthEstimator::estimate_bps, (link, now), estimate),
        old(link)@ == link_after(started, events),
        i128::MIN <= started <= now@,
        none_after(events, now@),
        kept_up(started, events.push(LinkEvent::Asked(now@))),
    ensures
        final(link)@ == link_after(started, events.push(LinkEvent::Asked(now@))),
        comes_to(started, events, now@, estimate),
{
    law_the_estimate_follows_from_the_window(started, events, now@);
    let asked = events.push(LinkEvent::Asked(now@));
    assert(asked.drop_last() =~= events);
}

/// An estimator starts with no calls behind it.
pub proof fn law_an_estimator_starts_empty(now: Instant, link: BandwidthEstimator)
    requires
        call_ensures(BandwidthEstimator::new, (now,), link),
    ensures
        link@ == link_after(now@, Seq::empty()),
{
}

/// A burst counts for its bytes and its packets, at the moment it is sent.
pub proof fn law_bursts_are_recorded(
    link: &mut BandwidthEstimator,
    started: int,
    events: Seq<LinkEvent>,
    bytes: u64,
    packets: u64,
    now: Instant,
)
    requires
        call_ensures(BandwidthEstimator::on_burst_sent, (link, bytes, packets, now), ()),
        old(link)@ == link_after(started, events),
    ensures
        final(link)@ == link_after(started, events.push(LinkEvent::Sent(bytes, packets, now@))),
{
    let more = events.push(LinkEvent::Sent(bytes, packets, now@));
    assert(more.drop_last() =~= events);
}

/// A confirmation counts for its bytes.
pub proof fn law_confirmations_are_recorded(
    link: &mut BandwidthEstimator,
    started: int,
    events: Seq<LinkEvent>,
    bytes: u64,
    now: Instant,
)
    requires
        call_ensures(BandwidthEstimator::on_bytes_confirmed, (link, bytes, now), ()),
        old(link)@ == link_after(started, events),
    ensures
        final(link)@ == link_after(started, events.push(LinkEvent::Confirmed(bytes, now@))),
{
    let more = events.push(LinkEvent::Confirmed(bytes, now@));
    assert(more.drop_last() =~= events);
}

/// A round trip counts from when it is measured on.
pub proof fn law_round_trips_are_recorded(
    link: &mut BandwidthEstimator,
    started: int,
    events: Seq<LinkEvent>,
    span: Duration,
)
    requires
        call_ensures(BandwidthEstimator::on_round_trip, (link, span), ()),
        old(link)@ == link_after(started, events),
    ensures
        final(link)@ == link_after(started, events.push(LinkEvent::RoundTrip(span@))),
        last_round_trip(events.push(LinkEvent::RoundTrip(span@))) == Some(span@),
{
    let more = events.push(LinkEvent::RoundTrip(span@));
    assert(more.drop_last() =~= events);
}

/// A history that is made shows nothing.
pub proof fn law_a_history_starts_empty(now: Instant, flow: FlowTracker, sum: u64)
    requires
        call_ensures(FlowTracker::new, (now,), flow),
        call_ensures(FlowTracker::sum, (&flow,), sum),
    ensures
        shows(flow@, Seq::empty(), now@),
        sum == 0,
{
    assert(slot_at(now@, now@) == 0);
    lemma_total_of_zeros(flow@.ages);
}

/// A history takes in every amount at its own moment.
pub proof fn law_a_history_takes_in_its_samples(
    flow: &mut FlowTracker,
    samples: Seq<Sample>,
    started: int,
    amount: u64,
    now: Instant,
)
    requires
        call_ensures(FlowTracker::accumulate, (flow, amount, now), ()),
        shows(old(flow)@, samples, started),
        slices_between(old(flow)@.head_started, now@) <= u32::MAX,
    ensures
        shows(final(flow)@, samples.push(Sample { amount, at: now@ }), started),
        slot_at(started, now@) <= slot_at(started, final(flow)@.head_started),
{
    lemma_counting_shows(old(flow)@, samples, started, amount, now@);
    lemma_rolling_shows(old(flow)@, samples, started, now@);
}

/// Rolling a history forward to `now` leaves in it what was counted in the slot
/// of `now` and the 255 before it, and that is what it adds up to.
pub proof fn law_a_rolled_history_holds_one_window(
    flow: &mut FlowTracker,
    samples: Seq<Sample>,
    started: int,
    now: Instant,
    sum: u64,
)
    requires
        call_ensures(FlowTracker::advance_to, (flow, now), ()),
        call_ensures(FlowTracker::sum, (&*final(flow),), sum),
        shows(old(flow)@, samples, started),
        old(flow)@.head_started <= now@,
        slices_between(old(flow)@.head_started, now@) <= u32::MAX,
        counted(samples, started, slot_at(started, now@) - 255, slot_at(started, now@))
            <= u64::MAX,
    ensures
        shows(final(flow)@, samples, started),
        sum == counted(
            samples,
            started,
            slot_at(started, now@) - 255,
            slot_at(started, now@),
        ),
{
    lemma_rolling_shows(old(flow)@, samples, started, now@);
    lemma_sum_of_window(final(flow)@, samples, started, NUM_TIMESLICES as int);
    assert(final(flow)@.ages.take(NUM_TIMESLICES as int) =~= final(flow)@.ages);
}

/// Whether `next` is the bitrate to go to from the current one when the link is
/// said to carry so much; none means to stay. Four fifths of what it carries are
/// for use. When they do not suffice for the current bitrate, it goes straight
/// down to them; otherwise it goes up by a tenth. Either way it ends up between
/// the floor and the ceiling, and where those cross, at the ceiling. A step down
/// of at most a twentieth is not taken.
pub open spec fn is_next_bitrate(
    current_bps: u32,
    estimate_bps: u32,
    min_bps: u32,
    max_bps: u32,
    next: Option<u32>,
) -> bool {
    let aim = if 4 * estimate_bps < 5 * current_bps {
        4 * estimate_bps / 5
    } else {
        11 * current_bps / 10
    };
    let target = if aim > max_bps || min_bps > max_bps {
        max_bps as int
    } else if aim < min_bps {
        min_bps as int
    } else {
        aim
    };
    &&& next is None <==> target <= current_bps && 20 * (current_bps - target) <= current_bps
    &&& next matches Some(bps) ==> bps == target
}

pub proof fn lemma_next_bitrate(current_bps: u32, estimate_bps: u32, min_bps: u32, max_bps: u32)
    ensures
        is_next_bitrate(
            current_bps,
            estimate_bps,
            min_bps,
            max_bps,
            next_bitrate_spec(current_bps, estimate_bps, min_bps, max_bps),
        ),
{
    if 4 * estimate_bps >= 5 * current_bps {
        assert(4 * estimate_bps / 5 >= current_bps);
    }
}

/// The bitrate follows what the link is said to carry.
pub proof fn law_the_bitrate_follows_the_link(
    current_bps: u32,
    estimate_bps: u32,
    min_bps: u32,
    max_bps: u32,
    next: Option<u32>,
)
    requires
        call_ensures(next_bitrate, (current_bps, estimate_bps, min_bps, max_bps), next),
    ensures
        is_next_bitrate(current_bps, estimate_bps, min_bps, max_bps, next),
{
    lemma_next_bitrate(current_bps, estimate_bps, min_bps, max_bps);
}

/// What a link that has seen some calls counts of packets up to `now` is what
/// they recorded for the window.
pub proof fn lemma_link_counts_packets(started: int, events: Seq<LinkEvent>, now: int)
    requires
        started <= now,
        kept_up(started, events),
        none_after(events, now),
        slices_between(link_after(started, events).packets.head_started, now) <= u32::MAX,
    ensures
        link_after(started, events).packets.advanced(now).sum() == sat_u64(
            counted(
                packet_samples(events),
                started,
                slot_at(started, now) - 255,
                slot_at(started, now),
            ),
        ),
{
    let packets = link_after(started, events).packets;
    let samples = packet_samples(events);
    lemma_link_shows(started, events, now);
    lemma_rolling_shows(packets, samples, started, now);
    let rolled = packets.advanced(now);
    lemma_sum_of_window(rolled, samples, started, NUM_TIMESLICES as int);
    assert(rolled.ages.take(NUM_TIMESLICES as int) =~= rolled.ages);
}

/// A history that is rolled forward ends less than a slice before `now`, as long
/// as the slices passed over can be counted in 32 bits; past that the start of
/// its newest slice moves by a single slice, or by a window once a machine word
/// cannot hold the count, and the history is empty. One that is ahead of `now`
/// stays as it is, and the samples seen stay seen.
pub proof fn law_histories_roll_by_whole_slices(flow: &mut FlowTracker, now: Instant, gap: int)
    requires
        old(flow).wf(),
        call_ensures(FlowTracker::advance_to, (flow, now), ()),
        old(flow)@.head_started <= now.nanos ==> 7_812_500 * gap <= now.nanos
            - old(flow)@.head_started < 7_812_500 * (gap + 1),
        now.nanos < old(flow)@.head_started ==> gap == 0,
    ensures
        ({
            let moved = final(flow)@.head_started - old(flow)@.head_started;
            &&& gap <= u32::MAX ==> moved == 7_812_500 * gap
            &&& u32::MAX < gap <= usize::MAX ==> moved == 7_812_500
            &&& u32::MAX < gap && usize::MAX < gap ==> moved == 2_000_000_000
            &&& final(flow)@.ages.len() == old(flow)@.ages.len()
            &&& gap == 0 ==> final(flow)@.ages == old(flow)@.ages
            &&& final(flow)@.first_sample == old(flow)@.first_sample
            &&& final(flow)@.last_sample == old(flow)@.last_sample
        }),
        gap >= 256 ==> forall|a: int|
            0 <= a < final(flow)@.ages.len() ==> #[trigger] final(flow)@.ages[a] == 0,
        0 <= gap < 256 ==> forall|a: int|
            gap <= a < final(flow)@.ages.len() ==> #[trigger] final(flow)@.ages[a] == old(
                flow,
            )@.ages[a - gap],
{
    assert(gap == slices_between(old(flow)@.head_started, now@));
    if gap == 0 {
        assert(final(flow)@.ages =~= old(flow)@.ages);
    }
}

} // verus!
