use gnome_shell_cast::bandwidth::{
    next_bitrate, BandwidthEstimator, FlowTracker, HISTORY_WINDOW_MILLIS, MAX_PACKETS_PER_BURST,
};
use gnome_shell_cast::time::{Duration, Instant};

fn start() -> Instant {
    Instant::from_nanos(1_000_000_000_000)
}

fn at(base: Instant, ms: u64) -> Instant {
    base.checked_add(Duration::from_millis(ms)).unwrap()
}

#[test]
fn no_estimate_before_a_full_window() {
    let now = start();
    let mut e = BandwidthEstimator::new(now);
    e.on_bytes_confirmed(100_000, now);
    assert_eq!(e.estimate_bps(at(now, 100)), None);
}

#[test]
fn silence_yields_no_estimate() {
    let now = start();
    let mut e = BandwidthEstimator::new(now);
    e.on_burst_sent(100_000, 64, now);
    assert_eq!(e.estimate_bps(at(now, 2100)), None);
}

/// Saturating the sender for the whole window: throughput is simply the
/// confirmed bytes over the window.
#[test]
fn confirmed_bytes_become_bits_per_second() {
    let now = start();
    let mut e = BandwidthEstimator::new(now);
    // Far more packets than a full window can carry saturates the model.
    for step in 0..20 {
        e.on_burst_sent(12_500, 640, at(now, step * 100));
        e.on_bytes_confirmed(12_500, at(now, step * 100));
    }
    let estimate = e.estimate_bps(at(now, 2000)).unwrap();
    assert!(
        (900_000..=1_100_000).contains(&estimate),
        "unexpected estimate {estimate}"
    );
}

/// The point of the burst-duration model: a sender that only transmitted
/// for a tenth of the window is carrying far more than its average.
#[test]
fn an_idle_sender_is_not_mistaken_for_a_slow_link() {
    let now = start();
    let mut e = BandwidthEstimator::new(now);
    for step in 0..20 {
        e.on_burst_sent(12_500, MAX_PACKETS_PER_BURST, at(now, step * 100));
        e.on_bytes_confirmed(12_500, at(now, step * 100));
    }
    let estimate = e.estimate_bps(at(now, 2000)).unwrap();
    // Same bytes as above but a tenth of the transmit time: ~10x.
    assert!(estimate > 5_000_000, "unexpected estimate {estimate}");
}

/// A round trip long enough to push every confirmation out of the window
/// leaves nothing to measure, which is how the shift proves it happened.
#[test]
fn feedback_is_attributed_back_to_when_it_was_sent() {
    let now = start();
    let mut shifted = BandwidthEstimator::new(now);
    shifted.on_round_trip(Duration::from_secs(5));
    let mut unshifted = BandwidthEstimator::new(now);
    for step in 0..30 {
        let when = at(now, step * 100);
        shifted.on_burst_sent(12_500, 640, when);
        shifted.on_bytes_confirmed(12_500, when);
        unshifted.on_burst_sent(12_500, 640, when);
        unshifted.on_bytes_confirmed(12_500, when);
    }
    let at_end = at(now, 3_000);
    assert!(unshifted.estimate_bps(at_end).is_some());
    assert_eq!(shifted.estimate_bps(at_end), None);
}

/// The guard that stops one lagging tick of acknowledgements from reading
/// as a collapsed link.
#[test]
fn a_short_burst_of_feedback_is_not_enough_to_estimate() {
    let now = start();
    let mut e = BandwidthEstimator::new(now);
    for step in 0..30 {
        e.on_burst_sent(12_500, 640, at(now, step * 100));
    }
    // Confirmations covering only the last 200ms of a 2s window.
    e.on_bytes_confirmed(12_500, at(now, 2_800));
    e.on_bytes_confirmed(12_500, at(now, 3_000));
    assert_eq!(e.estimate_bps(at(now, 3_000)), None);
}

#[test]
fn old_samples_age_out_of_the_window() {
    let now = start();
    let mut e = BandwidthEstimator::new(now);
    e.on_bytes_confirmed(250_000, now);
    // Long after the window has rolled past, nothing is left.
    assert_eq!(e.estimate_bps(at(now, 10_000)), None);
}

#[test]
fn a_drop_in_throughput_cuts_the_bitrate_immediately() {
    // Carrying 1 Mbit/s while sending 4 Mbit/s.
    let next = next_bitrate(4_000_000, 1_000_000, 300_000, 5_000_000).unwrap();
    assert_eq!(next, 800_000);
}

#[test]
fn headroom_raises_the_bitrate_only_gradually() {
    let next = next_bitrate(1_000_000, 50_000_000, 300_000, 5_000_000).unwrap();
    assert_eq!(next, 1_100_000);
}

#[test]
fn the_bitrate_stays_inside_the_negotiated_range() {
    // The 1.1x step would overshoot the ceiling, so it lands on it.
    assert_eq!(
        next_bitrate(4_000_000, 50_000_000, 300_000, 4_300_000),
        Some(4_300_000)
    );
    // A collapse cannot push it below the receiver's floor.
    assert_eq!(
        next_bitrate(5_000_000, 10_000, 300_000, 5_000_000),
        Some(300_000)
    );
}

/// The dead-band only suppresses tiny *reductions*: a climb is always a
/// full 10% step, which clears the 5% threshold by construction.
#[test]
fn a_small_reduction_is_not_worth_reconfiguring_the_encoder() {
    // usable = 992 kbit/s against a 1 Mbit/s target: under 5% down.
    assert_eq!(next_bitrate(1_000_000, 1_240_000, 300_000, 5_000_000), None);
}

#[test]
fn a_saturated_window_gives_exactly_the_confirmed_rate() {
    let now = start();
    let mut e = BandwidthEstimator::new(now);
    for step in 0..20 {
        e.on_burst_sent(12_500, 640, at(now, step * 100));
        e.on_bytes_confirmed(12_500, at(now, step * 100));
    }
    // The slice of the first sample has just left the window: 19 samples of
    // 100,000 bits over two seconds.
    assert_eq!(e.estimate_bps(at(now, 2000)), Some(950_000));
}

#[test]
fn rolling_in_steps_is_rolling_at_once() {
    let now = start();
    let mut steps = FlowTracker::new(now);
    let mut once = FlowTracker::new(now);
    steps.accumulate(7, now);
    once.accumulate(7, now);
    for step in 1..15 {
        steps.advance_to(at(now, step * 100));
    }
    once.advance_to(at(now, 1_400));
    assert_eq!(steps.sum(), once.sum());
    assert_eq!(once.sum(), 7);
    once.advance_to(at(now, HISTORY_WINDOW_MILLIS));
    assert_eq!(once.sum(), 0);
}

#[test]
fn a_sample_from_the_past_counts_in_its_own_slice() {
    let now = start();
    let mut flow = FlowTracker::new(now);
    flow.advance_to(at(now, 5_000));
    flow.accumulate(9, at(now, 4_900));
    assert_eq!(flow.sum(), 9);
    // It leaves the window with the slice it lies in.
    flow.advance_to(at(now, 6_890));
    assert_eq!(flow.sum(), 9);
    flow.advance_to(at(now, 6_900));
    assert_eq!(flow.sum(), 0);
}

#[test]
fn a_sample_from_before_the_window_is_left_out() {
    let now = start();
    let mut flow = FlowTracker::new(now);
    flow.advance_to(at(now, 5_000));
    flow.accumulate(9, now);
    assert_eq!(flow.sum(), 0);
    // The oldest slice of the window starts 255 slices before the newest.
    flow.accumulate(9, Instant::from_nanos(at(now, 5_000).nanos - 255 * 7_812_500 - 1));
    assert_eq!(flow.sum(), 0);
    flow.accumulate(9, Instant::from_nanos(at(now, 5_000).nanos - 255 * 7_812_500));
    assert_eq!(flow.sum(), 9);
}

#[test]
fn late_feedback_counts_when_its_bytes_were_sent() {
    let now = start();
    let mut e = BandwidthEstimator::new(now);
    e.on_round_trip(Duration::from_secs(1));
    e.on_burst_sent(1, 5_000, now);
    e.on_bytes_confirmed(1_000, at(now, 1_000));
    // Asking rolls the histories past what is confirmed next.
    assert_eq!(e.estimate_bps(at(now, 3_050)), None);
    e.on_bytes_confirmed(500, at(now, 3_105));
    e.on_burst_sent(1, 5_000, at(now, 3_200));
    e.on_bytes_confirmed(0, at(now, 4_095));
    // 500 bytes sent 1,990 ms ago, over two seconds.
    assert_eq!(e.estimate_bps(at(now, 4_095)), Some(2_000));
    e.on_bytes_confirmed(1, at(now, 4_110));
    // They have left the window; a single byte is the least there is.
    assert_eq!(e.estimate_bps(at(now, 4_110)), Some(4));
}

#[test]
fn a_climb_stops_at_the_ceiling() {
    assert_eq!(next_bitrate(4_200_000, 50_000_000, 300_000, 4_300_000), Some(4_300_000));
    assert_eq!(next_bitrate(4_299_999, 50_000_000, 300_000, 4_300_000), Some(4_300_000));
    assert_eq!(next_bitrate(4_300_000, 50_000_000, 300_000, 4_300_000), None);
    assert_eq!(next_bitrate(4_200_000, 50_000_000, 300_000, 5_000_000), Some(4_620_000));
}

#[test]
fn a_floor_just_above_the_bitrate_is_kept() {
    assert_eq!(next_bitrate(300_000, 1_000, 301_000, 5_000_000), Some(301_000));
}

#[test]
fn a_crossed_range_lands_on_its_upper_end() {
    assert_eq!(next_bitrate(1_000_000, 10_000, 900_000, 500_000), Some(500_000));
}

#[test]
fn a_tiny_bitrate_cannot_climb() {
    assert_eq!(next_bitrate(9, 1_000, 0, 1_000), None);
    assert_eq!(next_bitrate(10, 1_000, 0, 1_000), Some(11));
}

#[test]
fn a_round_trip_dates_confirmations_back() {
    let now = start();
    let mut e = BandwidthEstimator::new(now);
    e.on_round_trip(Duration::from_millis(200));
    for step in 0..30 {
        e.on_burst_sent(12_500, 640, at(now, step * 100));
        e.on_bytes_confirmed(12_500, at(now, step * 100));
    }
    assert!(e.estimate_bps(at(now, 3_000)).is_some());
}
