use gnome_shell_cast::bandwidth::{BURST_INTERVAL_MILLIS, MAX_PACKETS_PER_BURST};
use gnome_shell_cast::crypto::{encrypt_frame, generate_keys, keys_from};
use gnome_shell_cast::frames::{frame_bytes, PacketizedFrame};
use gnome_shell_cast::pacer::{
    after_send_attempt, send_deadline, PacketPacer, SendAttempt, SendStep,
};
use gnome_shell_cast::rtcp::{CAST, PT_PAYLOAD_SPECIFIC, SUBTYPE_FEEDBACK, SUBTYPE_PICTURE_LOSS};
use gnome_shell_cast::sender::{
    next_step, ChunkQueue, FrameOutcome, LoopStep, RateControl, RateDecision, RecvTimeoutError,
    SenderState,
};
use gnome_shell_cast::stream::{EncodedChunk, StreamConfig, StreamKind, MAX_HISTORY_FRAMES};
use gnome_shell_cast::time::{Duration, Instant};

fn start() -> Instant {
    Instant::from_nanos(5_000_000_000)
}

fn after(at: Instant, span: Duration) -> Instant {
    at.checked_add(span).unwrap()
}

fn at_ms(ms: u64) -> Instant {
    after(start(), Duration::from_millis(ms))
}

#[test]
fn packet_pacer_splits_packets_into_ten_millisecond_bursts() {
    let mut now = start();
    let mut pacer = PacketPacer::new(now);
    for _ in 0..MAX_PACKETS_PER_BURST {
        assert_eq!(pacer.delay_for_next_packet(now), Duration::from_nanos(0));
    }

    let delay = pacer.delay_for_next_packet(now);
    assert_eq!(delay, Duration::from_millis(BURST_INTERVAL_MILLIS));
    now = after(now, delay);
    for _ in 1..MAX_PACKETS_PER_BURST {
        assert_eq!(pacer.delay_for_next_packet(now), Duration::from_nanos(0));
    }
    assert_eq!(
        pacer.delay_for_next_packet(now),
        Duration::from_millis(BURST_INTERVAL_MILLIS)
    );
}

#[test]
fn a_run_of_packets_goes_out_in_bounded_bursts() {
    let mut pacer = PacketPacer::new(start());
    let mut now = start();
    let mut out: Vec<i128> = Vec::new();
    for i in 0_u64..500 {
        // Some packets come up a while after the one before.
        now = now.checked_add(Duration::from_nanos(i % 7 * 300_000)).unwrap();
        let delay = pacer.delay_for_next_packet(now);
        assert!(delay.nanos <= 10_000_000);
        now = now.checked_add(delay).unwrap();
        out.push(now.nanos);
    }
    for (i, from) in out.iter().enumerate() {
        let seen = out[i..].iter().filter(|at| **at < from + 10_000_000).count();
        assert!(seen <= 42, "{seen} packets from {from} on");
    }
    // Asked for all at once, they go out 21 to a burst.
    let mut pacer = PacketPacer::new(start());
    let mut now = start();
    let mut waits = 0;
    for _ in 0..210 {
        let delay = pacer.delay_for_next_packet(now);
        waits += u32::from(!delay.is_zero());
        now = now.checked_add(delay).unwrap();
    }
    assert_eq!(waits, 9);
    assert_eq!(now, at_ms(90));
}

#[test]
fn a_packet_after_a_pause_opens_a_new_burst() {
    let mut pacer = PacketPacer::new(start());
    for _ in 0..MAX_PACKETS_PER_BURST {
        assert!(pacer.delay_for_next_packet(start()).is_zero());
    }
    assert!(pacer.delay_for_next_packet(at_ms(25)).is_zero());
    // The burst that opened late holds its own ten milliseconds.
    for _ in 1..MAX_PACKETS_PER_BURST {
        assert!(pacer.delay_for_next_packet(at_ms(30)).is_zero());
    }
    assert_eq!(pacer.delay_for_next_packet(at_ms(30)), Duration::from_millis(5));
}

#[test]
fn a_full_send_buffer_is_waited_out_up_to_the_deadline() {
    let deadline = send_deadline(start());
    assert_eq!(deadline, Some(at_ms(100)));
    assert_eq!(after_send_attempt(SendAttempt::Sent, deadline, at_ms(500)), SendStep::Done);
    assert_eq!(
        after_send_attempt(SendAttempt::WouldBlock, deadline, at_ms(99)),
        SendStep::RetryLater
    );
    assert_eq!(
        after_send_attempt(SendAttempt::WouldBlock, deadline, at_ms(100)),
        SendStep::GiveUp
    );
    assert_eq!(after_send_attempt(SendAttempt::Failed, deadline, start()), SendStep::GiveUp);
    assert_eq!(after_send_attempt(SendAttempt::WouldBlock, None, start()), SendStep::GiveUp);
    assert_eq!(send_deadline(Instant::from_nanos(i128::MAX)), None);
}

fn chunk() -> EncodedChunk {
    EncodedChunk {
        kind: StreamKind::Video,
        is_key_frame: false,
        rtp_timestamp: 0,
        ntp_timestamp: 0,
        data: b"x".to_vec(),
    }
}

#[test]
fn chunk_channel_delivers_then_times_out() {
    let mut queue = ChunkQueue::new();
    queue.send(chunk());
    assert!(queue.poll().is_ok());
    assert!(matches!(queue.poll(), Err(RecvTimeoutError::Timeout)));
}

#[test]
fn chunk_channel_drains_before_reporting_disconnect() {
    let mut queue = ChunkQueue::new();
    queue.add_sender();
    assert!(!queue.drop_sender());
    queue.send(chunk());
    assert!(queue.drop_sender());
    assert!(queue.poll().is_ok());
    assert!(matches!(queue.poll(), Err(RecvTimeoutError::Disconnected)));
}

#[test]
fn chunks_come_out_in_the_order_they_went_in() {
    let mut queue = ChunkQueue::new();
    for rtp in 0..5 {
        queue.send(EncodedChunk { rtp_timestamp: rtp, ..chunk() });
    }
    for rtp in 0..5 {
        assert!(matches!(queue.poll(), Ok(next) if next.rtp_timestamp == rtp));
    }
}

#[test]
fn the_loop_goes_on_until_told_or_disconnected() {
    assert_eq!(next_step(false, &Ok(chunk())), LoopStep::SendChunk);
    assert_eq!(next_step(false, &Err(RecvTimeoutError::Timeout)), LoopStep::Service);
    assert_eq!(next_step(false, &Err(RecvTimeoutError::Disconnected)), LoopStep::Stop);
    assert_eq!(next_step(true, &Ok(chunk())), LoopStep::Stop);
}

fn config(kind: StreamKind, ssrc: u32) -> StreamConfig {
    StreamConfig { kind, ssrc, payload_type: 96, aes_key: [0; 16], aes_iv_mask: [0; 16] }
}

fn control() -> RateControl {
    RateControl {
        start_bps: 4_000_000,
        min_bps: 300_000,
        max_bps: 5_000_000,
        set_bitrate: true,
        set_size: true,
        sizes: vec![(1280, 720), (1920, 1080)],
        start_size: (1920, 1080),
    }
}

fn sender() -> SenderState {
    let configs = vec![config(StreamKind::Audio, 7), config(StreamKind::Video, 42)];
    SenderState::new(&configs, &control(), start())
}

fn send_video(state: &mut SenderState, key: bool, packets: &[&[u8]], sent: &[bool], now: Instant) -> (u64, FrameOutcome) {
    let chunk = EncodedChunk { is_key_frame: key, rtp_timestamp: 90, ntp_timestamp: 77, ..chunk() };
    let next = state.begin_chunk(&chunk, 400, now).unwrap();
    assert_eq!(next.stream, 1);
    let mut frame = PacketizedFrame::new(next.buffer);
    for packet in packets {
        frame.push_packet(packet);
    }
    let outcome =
        state.finish_chunk(next.stream, &chunk, next.frame.frame_id, frame, &sent.to_vec(), now);
    (next.frame.frame_id, outcome)
}

fn feedback(ssrc: u32, checkpoint: u8, loss: &[(u8, u16, u8)]) -> Vec<u8> {
    let mut body = Vec::new();
    body.extend_from_slice(&0xEEEE_EEEE_u32.to_be_bytes());
    body.extend_from_slice(&ssrc.to_be_bytes());
    body.extend_from_slice(&CAST.to_be_bytes());
    body.push(checkpoint);
    body.push(loss.len() as u8);
    body.extend_from_slice(&400_u16.to_be_bytes());
    for (frame, packet, bits) in loss {
        body.push(*frame);
        body.extend_from_slice(&packet.to_be_bytes());
        body.push(*bits);
    }
    let mut p = vec![0x80 | SUBTYPE_FEEDBACK, PT_PAYLOAD_SPECIFIC, 0, (body.len() / 4) as u8];
    p.extend_from_slice(&body);
    p
}

#[test]
fn frames_are_numbered_and_refer_to_the_one_before() {
    let mut state = sender();
    let key = EncodedChunk { is_key_frame: true, rtp_timestamp: 3, ..chunk() };
    let first = state.begin_chunk(&key, 400, start()).unwrap();
    assert!(first.first_video);
    assert_eq!(first.frame.frame_id, 0);
    assert_eq!(first.frame.referenced_frame_id, 0);
    assert_eq!(first.frame.rtp_timestamp, 3);
    assert_eq!(first.frame.playout_delay_ms, Some(400));
    let second = state.begin_chunk(&chunk(), 400, start()).unwrap();
    assert!(!second.first_video);
    assert_eq!((second.frame.frame_id, second.frame.referenced_frame_id), (1, 0));
    assert_eq!(second.frame.playout_delay_ms, None);
    let third = state.begin_chunk(&key, 400, start()).unwrap();
    assert_eq!((third.frame.frame_id, third.frame.referenced_frame_id), (2, 2));
}

#[test]
fn a_chunk_without_a_stream_is_not_sent() {
    let configs = vec![config(StreamKind::Audio, 7)];
    let mut state = SenderState::new(&configs, &control(), start());
    assert!(state.begin_chunk(&chunk(), 400, start()).is_none());
}

#[test]
fn nacks_are_answered_from_the_history() {
    let mut state = sender();
    send_video(&mut state, true, &[b"a0", b"a1", b"a2"], &[true; 3], start());
    send_video(&mut state, false, &[b"b0"], &[true], start());
    // Packet 1 of frame 0, a packet it never had, all of frame 1, and a frame
    // that was never sent.
    let packet = feedback(42, 255, &[(0, 1, 0), (0, 9, 0), (1, 0xffff, 0), (2, 0, 0)]);
    let responses = state.receive_at(&packet, 0, at_ms(1));
    assert_eq!(responses.len(), 2);
    assert!(responses[0].packets.is_empty());
    assert_eq!(responses[1].packets, vec![b"a1".to_vec(), b"b0".to_vec()]);
    assert_eq!(responses[1].acknowledged, Some(-1));
    assert!(!responses[1].request_keyframe);
}

#[test]
fn confirmed_frames_are_not_resent() {
    let mut state = sender();
    send_video(&mut state, true, &[b"a0"], &[true], start());
    send_video(&mut state, false, &[b"b0"], &[true], start());
    let responses = state.receive_at(&feedback(42, 0, &[(0, 0, 0), (1, 0, 0)]), 0, at_ms(1));
    assert_eq!(responses[1].packets, vec![b"b0".to_vec()]);
    // An older checkpoint takes nothing back.
    let responses = state.receive_at(&feedback(42, 255, &[(0, 0, 0)]), 0, at_ms(2));
    assert!(responses[1].packets.is_empty());
}

#[test]
fn the_history_keeps_the_latest_frames() {
    let mut state = sender();
    for _ in 0..=MAX_HISTORY_FRAMES {
        send_video(&mut state, false, &[b"p"], &[true], start());
    }
    let oldest = state.receive_at(&feedback(42, 255, &[(0, 0, 0)]), 0, at_ms(1));
    assert!(oldest[1].packets.is_empty());
    let next = state.receive_at(&feedback(42, 255, &[(1, 0, 0)]), 0, at_ms(1));
    assert_eq!(next[1].packets.len(), 1);
    // The evicted frame's buffer is handed out again.
    let reused = state.begin_chunk(&chunk(), 400, start()).unwrap();
    assert_eq!(reused.buffer, b"p".to_vec());
    let grown = state.begin_chunk(&chunk(), 400, start()).unwrap();
    assert!(grown.buffer.is_empty());
}

#[test]
fn a_stream_holds_no_more_buffers_than_its_history() {
    let mut state = sender();
    for _ in 0..=MAX_HISTORY_FRAMES {
        send_video(&mut state, false, &[b"p"], &[true], start());
    }
    // Everything is confirmed, so every buffer is spare.
    state.receive_at(&feedback(42, 120, &[]), 0, at_ms(1));
    let mut recycled = 0;
    while !state.begin_chunk(&chunk(), 400, start()).unwrap().buffer.is_empty() {
        recycled += 1;
    }
    assert_eq!(recycled, MAX_HISTORY_FRAMES);
}

#[test]
fn picture_loss_asks_the_video_stream_for_a_key_frame() {
    let mut state = sender();
    for (ssrc, audio, video) in [(42_u32, false, true), (7, false, false)] {
        let mut p = vec![0x80 | SUBTYPE_PICTURE_LOSS, PT_PAYLOAD_SPECIFIC, 0, 2];
        p.extend_from_slice(&0xEEEE_EEEE_u32.to_be_bytes());
        p.extend_from_slice(&ssrc.to_be_bytes());
        let responses = state.receive(&p, at_ms(1));
        assert_eq!(responses[0].request_keyframe, audio);
        assert_eq!(responses[1].request_keyframe, video);
    }
}

#[test]
fn dropped_packets_are_counted_and_reported_once() {
    let mut state = sender();
    let (_, outcome) = send_video(&mut state, true, &[b"a", b"b", b"c"], &[true, false, false], start());
    assert_eq!(outcome, FrameOutcome { dropped: 2, first_drops: true });
    let (_, outcome) = send_video(&mut state, false, &[b"a"], &[false], start());
    assert_eq!(outcome, FrameOutcome { dropped: 1, first_drops: false });
    let (_, outcome) = send_video(&mut state, false, &[b"a"], &[true], start());
    assert_eq!(outcome, FrameOutcome { dropped: 0, first_drops: false });
}

#[test]
fn reports_follow_the_first_frame_and_keep_their_distance() {
    let mut state = sender();
    assert!(state.due_reports(start()).is_empty());
    send_video(&mut state, true, &[b"abc", b"de"], &[true, true], start());
    let reports = state.due_reports(at_ms(1));
    assert_eq!(reports.len(), 1);
    assert_eq!(&reports[0][4..8], &42_u32.to_be_bytes());
    assert_eq!(&reports[0][8..16], &77_u64.to_be_bytes());
    assert_eq!(&reports[0][16..20], &90_u32.to_be_bytes());
    assert_eq!(&reports[0][20..24], &2_u32.to_be_bytes());
    assert_eq!(&reports[0][24..28], &5_u32.to_be_bytes());
    assert!(state.due_reports(at_ms(500)).is_empty());
    assert_eq!(state.due_reports(at_ms(501)).len(), 1);
}

#[test]
fn silence_is_reported_once_and_only_without_an_acknowledgement() {
    let mut state = sender();
    assert!(!state.report_silence(at_ms(10_000)));
    send_video(&mut state, true, &[b"a"], &[true], start());
    assert!(!state.report_silence(at_ms(2_999)));
    assert!(state.report_silence(at_ms(3_000)));
    assert!(!state.report_silence(at_ms(4_000)));

    let mut acked = sender();
    send_video(&mut acked, true, &[b"a"], &[true], start());
    // Audio acknowledgements, and "nothing yet", are no sign of video.
    acked.receive_at(&feedback(7, 0, &[]), 0, at_ms(1));
    acked.receive_at(&feedback(42, 255, &[]), 0, at_ms(1));
    acked.receive_at(&feedback(42, 0, &[]), 0, at_ms(2));
    assert!(!acked.report_silence(at_ms(3_000)));
}

fn run_link(control: &RateControl) -> RateDecision {
    let mut state = sender();
    let payload = [0_u8; 1_250];
    let packets: Vec<&[u8]> = vec![&payload; 10];
    for step in 0..30_u8 {
        let now = at_ms(u64::from(step) * 100);
        send_video(&mut state, step == 0, &packets, &[true; 10], now);
        state.receive_at(&feedback(42, step, &[]), 0, now);
    }
    let decision = state.control_rate(control, at_ms(3_000));
    // Nothing more is decided before the next interval.
    assert_eq!(
        state.control_rate(control, at_ms(3_499)),
        RateDecision { bitrate: None, room: None }
    );
    decision
}

#[test]
fn the_bitrate_follows_the_link() {
    let decision = run_link(&control());
    assert_eq!(decision, RateDecision { bitrate: Some(4_400_000), room: Some((false, false)) });
}

#[test]
fn pinned_settings_are_left_alone() {
    let pinned = RateControl { set_bitrate: false, set_size: false, ..control() };
    assert_eq!(run_link(&pinned), RateDecision { bitrate: None, room: None });
    let at_floor = RateControl { set_bitrate: false, min_bps: 4_000_000, ..control() };
    assert_eq!(run_link(&at_floor), RateDecision { bitrate: None, room: Some((true, false)) });
}

#[test]
fn no_estimate_means_no_decision() {
    let mut state = sender();
    assert_eq!(
        state.control_rate(&control(), at_ms(600)),
        RateDecision { bitrate: None, room: None }
    );
}

#[test]
fn frames_keep_their_packets_apart() {
    let mut frame = PacketizedFrame::new(b"old contents".to_vec());
    assert_eq!(frame.packet_count(), 0);
    frame.push_packet(b"abc");
    frame.push_packet(b"");
    frame.push_packet(b"de");
    assert_eq!(frame.packet_count(), 3);
    assert_eq!(frame.packet_at(0), b"abc");
    assert_eq!(frame.packet(1), Some(&b""[..]));
    assert_eq!(frame.packet(2), Some(&b"de"[..]));
    assert_eq!(frame.packet(3), None);
    assert_eq!(frame_bytes(&frame), 5);
    assert_eq!(frame.into_buffer(), b"abcde".to_vec());
}

const KEY: [u8; 16] = [
    0x2b, 0x7e, 0x15, 0x16, 0x28, 0xae, 0xd2, 0xa6, 0xab, 0xf7, 0x15, 0x88, 0x09, 0xcf, 0x4f, 0x3c,
];
const COUNTER: [u8; 16] = [
    0xf0, 0xf1, 0xf2, 0xf3, 0xf4, 0xf5, 0xf6, 0xf7, 0xf8, 0xf9, 0xfa, 0xfb, 0xfc, 0xfd, 0xfe, 0xff,
];

#[test]
fn encryption_is_aes_in_counter_mode() {
    // The first two blocks of a published counter-mode example.
    let plain: Vec<u8> = vec![
        0x6b, 0xc1, 0xbe, 0xe2, 0x2e, 0x40, 0x9f, 0x96, 0xe9, 0x3d, 0x7e, 0x11, 0x73, 0x93, 0x17,
        0x2a, 0xae, 0x2d, 0x8a, 0x57, 0x1e, 0x03, 0xac, 0x9c, 0x9e, 0xb7, 0x6f, 0xac, 0x45, 0xaf,
        0x8e, 0x51,
    ];
    let mut data = plain.clone();
    encrypt_frame(&KEY, &COUNTER, &mut data);
    assert_eq!(
        data,
        vec![
            0x87, 0x4d, 0x61, 0x91, 0xb6, 0x20, 0xe3, 0x26, 0x1b, 0xef, 0x68, 0x64, 0x99, 0x0d,
            0xb6, 0xce, 0x98, 0x06, 0xf6, 0x6b, 0x79, 0x70, 0xfd, 0xff, 0x86, 0x17, 0x18, 0x7b,
            0xb9, 0xff, 0xfd, 0xff,
        ]
    );
    encrypt_frame(&KEY, &COUNTER, &mut data);
    assert_eq!(data, plain);
}

#[test]
fn a_stream_encrypts_with_its_own_key() {
    let configs = vec![StreamConfig { aes_key: KEY, ..config(StreamKind::Video, 42) }];
    let state = SenderState::new(&configs, &control(), start());
    let mut data = vec![0x6b, 0xc1, 0xbe, 0xe2];
    state.encrypt(0, &COUNTER, &mut data);
    assert_eq!(data, vec![0x87, 0x4d, 0x61, 0x91]);
}

#[test]
fn source_ids_stay_near_their_base() {
    let keys = keys_from(1_000, 123_456, KEY, COUNTER);
    assert_eq!(keys.ssrc, 1_456);
    assert_eq!((keys.aes_key, keys.aes_iv_mask), (KEY, COUNTER));
    assert_eq!(keys_from(u32::MAX, 1, KEY, COUNTER).ssrc, 0);
    let drawn = generate_keys(50_000);
    assert!((50_000..51_000).contains(&drawn.ssrc));
    let again = generate_keys(50_000);
    assert_ne!(drawn.aes_key, again.aes_key);
    assert_ne!(drawn.aes_key, drawn.aes_iv_mask);
}
