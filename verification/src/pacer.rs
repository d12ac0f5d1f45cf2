//! Packet pacing, and waiting out a full send buffer.

use vstd::prelude::*;

use crate::bandwidth::{BURST_INTERVAL_MILLIS, MAX_PACKETS_PER_BURST};
use crate::time::{Duration, Instant};

verus! {

/// How long a single packet may wait for room in the socket's send buffer, in milliseconds.
pub const SEND_TIMEOUT_MILLIS: u64 = 100;

/// Pause between attempts while the send buffer is full, in microseconds.
pub const SEND_RETRY_DELAY_MICROS: u64 = 200;

/// The length of a burst in nanoseconds.
pub open spec fn burst_nanos() -> nat {
    (BURST_INTERVAL_MILLIS * 1_000_000) as nat
}

/// The length of a burst.
pub fn burst_interval() -> (span: Duration)
    ensures
        span@ == burst_nanos(),
{
    Duration::from_millis(BURST_INTERVAL_MILLIS)
}

/// Spaces packets into bounded 10 ms bursts. A successful local UDP send does
/// not mean that a receiver's much smaller input buffer can absorb an entire
/// large keyframe.
pub struct PacketPacer {
    burst_started: Instant,
    packets_in_burst: u64,
}

/// When the current burst started, and how many packets it has let through.
pub struct PacerView {
    pub burst_started: int,
    pub packets_in_burst: int,
}

impl View for PacketPacer {
    type V = PacerView;

    closed spec fn view(&self) -> PacerView {
        PacerView {
            burst_started: self.burst_started@,
            packets_in_burst: self.packets_in_burst as int,
        }
    }
}

impl PacerView {
    /// When the burst after the current one may start, seen at `now`.
    pub open spec fn next_burst(self, now: int) -> int {
        if self.burst_started + burst_nanos() <= i128::MAX {
            self.burst_started + burst_nanos()
        } else {
            now
        }
    }

    /// The pacer after a packet asked to go at `now`: it joins the current
    /// burst while that has room, and opens a new one otherwise - at once when
    /// the current burst is over, when the next one is due if not.
    pub open spec fn admitted(self, now: int) -> PacerView {
        if now >= self.next_burst(now) {
            PacerView { burst_started: now, packets_in_burst: 1 }
        } else if self.packets_in_burst < MAX_PACKETS_PER_BURST {
            PacerView { packets_in_burst: self.packets_in_burst + 1, ..self }
        } else {
            PacerView { burst_started: self.next_burst(now), packets_in_burst: 1 }
        }
    }

    /// How long the packet has to wait.
    pub open spec fn delay(self, now: int) -> nat {
        if now < self.next_burst(now) && self.packets_in_burst >= MAX_PACKETS_PER_BURST {
            (self.next_burst(now) - now) as nat
        } else {
            0
        }
    }
}

impl PacketPacer {
    /// No burst holds more packets than one may.
    pub open spec fn wf(&self) -> bool {
        0 <= self@.packets_in_burst <= MAX_PACKETS_PER_BURST
    }

    pub fn new(now: Instant) -> (pacer: PacketPacer)
        ensures
            pacer.wf(),
            pacer@ == (PacerView { burst_started: now@, packets_in_burst: 0 }),
    {
        PacketPacer { burst_started: now, packets_in_burst: 0 }
    }

    /// Lets the next packet in, and says how long it has to wait from `now` on.
    pub fn delay_for_next_packet(&mut self, now: Instant) -> (delay: Duration)
        requires
            old(self).wf(),
        ensures
            final(self).wf(),
            final(self)@ == old(self)@.admitted(now@),
            delay@ == old(self)@.delay(now@),
    {
        let next_burst = match self.burst_started.checked_add(burst_interval()) {
            Some(later) => later,
            None => now,
        };
        if now.nanos >= next_burst.nanos {
            self.burst_started = now;
            self.packets_in_burst = 1;
            return Duration::from_nanos(0);
        }
        if self.packets_in_burst < MAX_PACKETS_PER_BURST {
            self.packets_in_burst = self.packets_in_burst + 1;
            return Duration::from_nanos(0);
        }
        self.burst_started = next_burst;
        self.packets_in_burst = 1;
        next_burst.saturating_duration_since(now)
    }
}

/// Bursts start at least one burst interval apart, and a burst that has let as
/// many packets through as it may lets no further one through.
pub proof fn law_bursts_are_spaced_and_bounded(pacer: PacerView, now: int)
    requires
        0 <= pacer.packets_in_burst <= MAX_PACKETS_PER_BURST,
        pacer.burst_started + burst_nanos() <= i128::MAX,
    ensures
        ({
            let after = pacer.admitted(now);
            &&& 1 <= after.packets_in_burst <= MAX_PACKETS_PER_BURST
            &&& if after.burst_started == pacer.burst_started {
                after.packets_in_burst == pacer.packets_in_burst + 1
            } else {
                after.burst_started >= pacer.burst_started + burst_nanos()
            }
        }),
{
}

/// A packet that waits as told goes out when its burst starts, and no packet
/// goes out before its burst does, as long as no packet asks before the burst
/// that is open.
pub proof fn law_packets_go_out_in_their_burst(pacer: PacerView, now: int)
    requires
        0 <= pacer.packets_in_burst <= MAX_PACKETS_PER_BURST,
        pacer.burst_started <= now,
    ensures
        pacer.admitted(now).burst_started <= now + pacer.delay(now),
        pacer.delay(now) > 0 ==> pacer.admitted(now).burst_started == now + pacer.delay(now),
        pacer.delay(now) <= burst_nanos(),
{
}

/// A pacer made at `started`, once the first `n` packets have asked to go, each
/// at its moment in `asked`.
pub open spec fn pacer_after(started: int, asked: Seq<int>, n: int) -> PacerView
    decreases n,
{
    if n <= 0 {
        PacerView { burst_started: started, packets_in_burst: 0 }
    } else {
        pacer_after(started, asked, n - 1).admitted(asked[n - 1])
    }
}

/// When packet `i` goes out: once it has waited as told.
pub open spec fn goes_out(started: int, asked: Seq<int>, i: int) -> int {
    asked[i] + pacer_after(started, asked, i).delay(asked[i])
}

/// When the burst of packet `i` started.
pub open spec fn burst_of(started: int, asked: Seq<int>, i: int) -> int {
    pacer_after(started, asked, i + 1).burst_started
}

/// Whether packets ask one after the other: the first not before the pacer was
/// made, and each not before the one ahead of it has gone out. The moments stay
/// clear of the end of the clock by the length of a burst.
pub open spec fn one_at_a_time(started: int, asked: Seq<int>) -> bool {
    &&& asked.len() > 0 ==> started <= asked[0]
    &&& started + burst_nanos() <= i128::MAX
    &&& forall|i: int|
        0 <= i < asked.len() ==> #[trigger] goes_out(started, asked, i) + burst_nanos()
            <= i128::MAX
    &&& forall|i: int|
        0 < i < asked.len() ==> goes_out(started, asked, i - 1) <= #[trigger] asked[i]
}

/// How many of the first `n` packets go out from `from` on and before `to`.
pub open spec fn count_between(started: int, asked: Seq<int>, n: int, from: int, to: int) -> nat
    decreases n,
{
    if n <= 0 {
        0
    } else {
        let before = count_between(started, asked, n - 1, from, to);
        if from <= goes_out(started, asked, n - 1) < to {
            before + 1
        } else {
            before
        }
    }
}

/// What holds of one packet in a run: it waits for no longer than a burst, and
/// goes out in its burst.
proof fn lemma_packet_of_a_run(started: int, asked: Seq<int>, i: int)
    requires
        one_at_a_time(started, asked),
        0 <= i < asked.len(),
    ensures
        ({
            let burst = pacer_after(started, asked, i + 1);
            let out = goes_out(started, asked, i);
            &&& asked[i] <= out <= asked[i] + burst_nanos()
            &&& burst.burst_started <= out < burst.burst_started + burst_nanos()
            &&& 1 <= burst.packets_in_burst <= MAX_PACKETS_PER_BURST
        }),
    decreases i,
{
    let before = pacer_after(started, asked, i);
    if i > 0 {
        lemma_packet_of_a_run(started, asked, i - 1);
        assert(goes_out(started, asked, i - 1) <= asked[i]);
        assert(goes_out(started, asked, i - 1) + burst_nanos() <= i128::MAX);
    }
    assert(pacer_after(started, asked, i + 1) == before.admitted(asked[i]));
}

/// Of two packets in a run, the later one goes in the same burst, and is then
/// counted there, or in one that started at least a burst later.
proof fn lemma_bursts_of_a_run(started: int, asked: Seq<int>, i: int, j: int)
    requires
        one_at_a_time(started, asked),
        0 <= i <= j < asked.len(),
    ensures
        ({
            let first = pacer_after(started, asked, i + 1);
            let second = pacer_after(started, asked, j + 1);
            if first.burst_started == second.burst_started {
                second.packets_in_burst == first.packets_in_burst + (j - i)
            } else {
                second.burst_started >= first.burst_started + burst_nanos()
            }
        }),
        goes_out(started, asked, i) <= goes_out(started, asked, j),
    decreases j - i,
{
    if i < j {
        lemma_bursts_of_a_run(started, asked, i, j - 1);
        lemma_packet_of_a_run(started, asked, j - 1);
        lemma_packet_of_a_run(started, asked, j);
        let before = pacer_after(started, asked, j);
        assert(goes_out(started, asked, j - 1) <= asked[j]);
        assert(goes_out(started, asked, j - 1) + burst_nanos() <= i128::MAX);
        assert(pacer_after(started, asked, j + 1) == before.admitted(asked[j]));
        law_bursts_are_spaced_and_bounded(before, asked[j]);
    }
}

/// Two bursts' worth of packets take more than the length of a burst.
proof fn lemma_two_bursts_take_time(started: int, asked: Seq<int>, i: int, j: int)
    requires
        one_at_a_time(started, asked),
        0 <= i,
        i + 2 * MAX_PACKETS_PER_BURST <= j < asked.len(),
    ensures
        goes_out(started, asked, i) + burst_nanos() < goes_out(started, asked, j),
{
    let middle = i + MAX_PACKETS_PER_BURST;
    lemma_packet_of_a_run(started, asked, i);
    lemma_packet_of_a_run(started, asked, middle);
    lemma_packet_of_a_run(started, asked, j);
    lemma_bursts_of_a_run(started, asked, i, middle);
    lemma_bursts_of_a_run(started, asked, middle, j);
}

/// Counting `k` packets more counts at most `k` more.
proof fn lemma_count_grows_slowly(
    started: int,
    asked: Seq<int>,
    n: int,
    k: int,
    from: int,
    to: int,
)
    requires
        0 <= n,
        0 <= k,
    ensures
        count_between(started, asked, n + k, from, to) <= count_between(
            started,
            asked,
            n,
            from,
            to,
        ) + k,
    decreases k,
{
    if k > 0 {
        lemma_count_grows_slowly(started, asked, n, k - 1, from, to);
    }
}

/// Packets that have all gone out earlier are not counted.
proof fn lemma_earlier_packets_are_not_counted(
    started: int,
    asked: Seq<int>,
    n: int,
    from: int,
    to: int,
)
    requires
        forall|i: int| 0 <= i < n ==> #[trigger] goes_out(started, asked, i) < from,
    ensures
        count_between(started, asked, n, from, to) == 0,
    decreases n,
{
    if n > 0 {
        lemma_earlier_packets_are_not_counted(started, asked, n - 1, from, to);
        assert(goes_out(started, asked, n - 1) < from);
    }
}

/// Of the packets of a run, at most two bursts' worth go out in any stretch of
/// time that is as long as a burst.
proof fn lemma_count_is_bounded(started: int, asked: Seq<int>, n: int, from: int)
    requires
        one_at_a_time(started, asked),
        0 <= n <= asked.len(),
    ensures
        count_between(started, asked, n, from, from + burst_nanos()) <= 2 * MAX_PACKETS_PER_BURST,
    decreases n,
{
    let to = from + burst_nanos();
    if n > 0 {
        lemma_count_is_bounded(started, asked, n - 1, from);
        if from <= goes_out(started, asked, n - 1) < to {
            let most = 2 * MAX_PACKETS_PER_BURST;
            let rest = if n >= most {
                n - most
            } else {
                0
            };
            assert forall|i: int| 0 <= i < rest implies #[trigger] goes_out(started, asked, i)
                < from by {
                lemma_two_bursts_take_time(started, asked, i, n - 1);
            }
            lemma_earlier_packets_are_not_counted(started, asked, rest, from, to);
            lemma_count_grows_slowly(started, asked, rest, n - rest, from, to);
        }
    }
}

/// Pacing bounds what a receiver's buffer has to take in. Whenever the packets
/// of a run ask, each waits for at most a burst interval and goes out in order,
/// less than a burst interval after its burst started; bursts start at least
/// that far apart, and none holds more packets than it may. So no stretch of
/// time of that length, wherever it starts, sees more than two bursts' worth.
pub proof fn law_a_run_goes_out_in_bounded_bursts(started: int, asked: Seq<int>)
    requires
        one_at_a_time(started, asked),
    ensures
        forall|i: int|
            0 <= i < asked.len() ==> {
                let out = #[trigger] goes_out(started, asked, i);
                let burst = burst_of(started, asked, i);
                &&& asked[i] <= out <= asked[i] + burst_nanos()
                &&& burst <= out < burst + burst_nanos()
            },
        forall|i: int, j: int|
            0 <= i <= j < asked.len() ==> {
                let first = #[trigger] burst_of(started, asked, i);
                let second = #[trigger] burst_of(started, asked, j);
                &&& goes_out(started, asked, i) <= goes_out(started, asked, j)
                &&& first == second || first + burst_nanos() <= second
                &&& first == second ==> j - i < MAX_PACKETS_PER_BURST
            },
        forall|from: int|
            #[trigger] count_between(
                started,
                asked,
                asked.len() as int,
                from,
                from + burst_nanos(),
            ) <= 2 * MAX_PACKETS_PER_BURST,
{
    assert forall|i: int| 0 <= i < asked.len() implies {
        let out = #[trigger] goes_out(started, asked, i);
        let burst = burst_of(started, asked, i);
        &&& asked[i] <= out <= asked[i] + burst_nanos()
        &&& burst <= out < burst + burst_nanos()
    } by {
        lemma_packet_of_a_run(started, asked, i);
    }
    assert forall|i: int, j: int| 0 <= i <= j < asked.len() implies {
        let first = #[trigger] burst_of(started, asked, i);
        let second = #[trigger] burst_of(started, asked, j);
        &&& goes_out(started, asked, i) <= goes_out(started, asked, j)
        &&& first == second || first + burst_nanos() <= second
        &&& first == second ==> j - i < MAX_PACKETS_PER_BURST
    } by {
        lemma_packet_of_a_run(started, asked, i);
        lemma_packet_of_a_run(started, asked, j);
        lemma_bursts_of_a_run(started, asked, i, j);
    }
    assert forall|from: int|
        #[trigger] count_between(started, asked, asked.len() as int, from, from + burst_nanos())
            <= 2 * MAX_PACKETS_PER_BURST by {
        lemma_count_is_bounded(started, asked, asked.len() as int, from);
    }
}

/// How one attempt to hand a packet to the socket ended.
#[derive(Clone, Copy, PartialEq, Eq, Structural, Debug)]
pub enum SendAttempt {
    Sent,
    /// The send buffer is full.
    WouldBlock,
    Failed,
}

/// What to do after an attempt.
#[derive(Clone, Copy, PartialEq, Eq, Structural, Debug)]
pub enum SendStep {
    Done,
    /// Pause for the retry delay, then try again.
    RetryLater,
    GiveUp,
}

/// Until when the attempts for a packet that became ready at `now` go on;
/// `None` when that moment cannot be represented.
pub fn send_deadline(now: Instant) -> (deadline: Option<Instant>)
    ensures
        deadline is Some <==> now@ + SEND_TIMEOUT_MILLIS * 1_000_000 <= i128::MAX,
        deadline matches Some(at) ==> at@ == now@ + SEND_TIMEOUT_MILLIS * 1_000_000,
{
    now.checked_add(Duration::from_millis(SEND_TIMEOUT_MILLIS))
}

/// Decides after one attempt to send a packet. A full send buffer is waited out
/// rather than taken as a loss: a dropped packet costs the receiver the whole
/// frame, and waiting paces the sender to what the link accepts.
pub fn after_send_attempt(
    attempt: SendAttempt,
    deadline: Option<Instant>,
    now: Instant,
) -> (step: SendStep)
    ensures
        step == match attempt {
            SendAttempt::Sent => SendStep::Done,
            SendAttempt::Failed => SendStep::GiveUp,
            SendAttempt::WouldBlock => match deadline {
                Some(at) => if now@ < at@ {
                    SendStep::RetryLater
                } else {
                    SendStep::GiveUp
                },
                None => SendStep::GiveUp,
            },
        },
{
    match attempt {
        SendAttempt::Sent => SendStep::Done,
        SendAttempt::Failed => SendStep::GiveUp,
        SendAttempt::WouldBlock => match deadline {
            Some(at) => if now.nanos < at.nanos {
                SendStep::RetryLater
            } else {
                SendStep::GiveUp
            },
            None => SendStep::GiveUp,
        },
    }
}

/// A packet goes out at the first moment that it may, from when it asks on: at
/// once while its burst has let fewer than 21 packets through, or else when the
/// burst is 10 milliseconds old. A packet that goes out within those 10
/// milliseconds belongs to the burst; any other is the first of a burst that
/// starts with it. The burst stays clear of the end of the clock.
pub proof fn law_packets_go_out_as_soon_as_they_may(
    pacer: &mut PacketPacer,
    now: Instant,
    delay: Duration,
)
    requires
        old(pacer).wf(),
        old(pacer)@.burst_started + 10_000_000 <= i128::MAX,
        call_ensures(PacketPacer::delay_for_next_packet, (pacer, now), delay),
    ensures
        ({
            let opened = old(pacer)@.burst_started;
            let held = old(pacer)@.packets_in_burst;
            let out = now.nanos + delay.nanos;
            &&& held < 21 || out - opened >= 10_000_000
            &&& delay.nanos > 0 ==> held >= 21 && out - opened <= 10_000_000
            &&& out - opened < 10_000_000 ==> final(pacer)@ == (PacerView {
                burst_started: opened,
                packets_in_burst: held + 1,
            })
            &&& out - opened >= 10_000_000 ==> final(pacer)@ == (PacerView {
                burst_started: out,
                packets_in_burst: 1,
            })
        }),
{
}

/// A pacer starts with a burst that has let nothing through.
pub proof fn law_a_pacer_starts_with_an_empty_burst(now: Instant, pacer: PacketPacer)
    requires
        call_ensures(PacketPacer::new, (now,), pacer),
    ensures
        pacer.wf(),
        pacer@.burst_started == now.nanos,
        pacer@.packets_in_burst == 0,
{
}

/// Attempts at a packet go on for a tenth of a second after it became ready, and
/// for as long as the buffer is what stands in the way: a packet that went, or
/// that failed for another reason, is not tried again.
pub proof fn law_a_full_buffer_is_waited_out(
    ready: Instant,
    deadline: Option<Instant>,
    attempt: SendAttempt,
    now: Instant,
    step: SendStep,
)
    requires
        ready.nanos + 100_000_000 <= i128::MAX,
        call_ensures(send_deadline, (ready,), deadline),
        call_ensures(after_send_attempt, (attempt, deadline, now), step),
    ensures
        step == SendStep::RetryLater <==> attempt == SendAttempt::WouldBlock && now.nanos
            - ready.nanos < 100_000_000,
        step == SendStep::Done <==> attempt == SendAttempt::Sent,
{
}

/// A burst lasts for 10 milliseconds.
pub proof fn law_bursts_last_ten_milliseconds(span: Duration)
    requires
        call_ensures(burst_interval, (), span),
    ensures
        span.nanos == 10_000_000,
{
}

} // verus!
