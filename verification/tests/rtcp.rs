use gnome_shell_cast::rtcp::{
    build_sender_report, expand_frame_id, ntp_now, ntp_timestamp, parse, parse_at, Nack,
    ReceiverEvents, ALL_PACKETS_LOST, CAST, NTP_UNIX_OFFSET, PT_PAYLOAD_SPECIFIC, SUBTYPE_FEEDBACK,
    SUBTYPE_PICTURE_LOSS,
};
use gnome_shell_cast::time::Duration;

#[test]
fn sender_report_layout() {
    let sr = build_sender_report(0x0102_0304, 0xAABB_CCDD_1122_3344, 90_000, 5, 6_000);
    assert_eq!(sr.len(), 28);
    assert_eq!(sr[0], 0x80);
    assert_eq!(sr[1], 200);
    assert_eq!(u16::from_be_bytes([sr[2], sr[3]]), 6);
    assert_eq!(&sr[4..8], &0x0102_0304_u32.to_be_bytes());
    assert_eq!(&sr[8..16], &0xAABB_CCDD_1122_3344_u64.to_be_bytes());
    assert_eq!(&sr[16..20], &90_000_u32.to_be_bytes());
}

#[test]
fn expand_frame_id_windows() {
    assert_eq!(expand_frame_id(5, 0), 5);
    assert_eq!(expand_frame_id(5, 250), 261); // wrapped past the low byte
    assert_eq!(expand_frame_id(250, 250), 250);
    assert_eq!(expand_frame_id(0x02, 0x100), 0x102);
    // "I have received nothing": the frame before the first one.
    assert_eq!(expand_frame_id(255, 0), -1);
}

fn feedback_packet(sender_ssrc: u32, checkpoint: u8, loss: &[(u8, u16, u8)]) -> Vec<u8> {
    let mut body = Vec::new();
    body.extend_from_slice(&0xEEEE_EEEE_u32.to_be_bytes()); // receiver ssrc
    body.extend_from_slice(&sender_ssrc.to_be_bytes());
    body.extend_from_slice(&CAST.to_be_bytes());
    body.push(checkpoint);
    body.push(u8::try_from(loss.len()).unwrap_or(u8::MAX));
    body.extend_from_slice(&400_u16.to_be_bytes());
    for (fid, pid, bits) in loss {
        body.push(*fid);
        body.extend_from_slice(&pid.to_be_bytes());
        body.push(*bits);
    }
    let mut p = vec![0x80 | SUBTYPE_FEEDBACK, PT_PAYLOAD_SPECIFIC];
    let words = u16::try_from(body.len().checked_div(4).unwrap_or(0)).unwrap_or(u16::MAX);
    p.extend_from_slice(&words.to_be_bytes());
    p.extend_from_slice(&body);
    p
}

fn parse_new(data: &[u8], sender_ssrc: u32, checkpoint_hint: i64) -> ReceiverEvents {
    // Pre-poison the events to prove parse() replaces previous contents.
    let mut events = ReceiverEvents {
        checkpoint_frame_id: Some(i64::MAX),
        nacks: vec![Nack {
            frame_id: i64::MAX,
            packet_id: 0,
        }],
        picture_loss: false,
        round_trip: Some(Duration::from_secs(99)),
    };
    parse(data, sender_ssrc, checkpoint_hint, &mut events);
    events
}

#[test]
fn parses_checkpoint_and_nacks() {
    let packet = feedback_packet(42, 7, &[(9, 2, 0b0000_0101)]);
    let events = parse_new(&packet, 42, 0);
    assert_eq!(events.checkpoint_frame_id, Some(7));
    // packet 2 itself, then bits 0 and 2 → packets 3 and 5.
    assert_eq!(
        events.nacks,
        vec![
            Nack {
                frame_id: 9,
                packet_id: 2
            },
            Nack {
                frame_id: 9,
                packet_id: 3
            },
            Nack {
                frame_id: 9,
                packet_id: 5
            },
        ]
    );
}

/// Read as a forward jump this retires the whole retransmit history, so
/// the frames the receiver is about to NACK could never be resent.
#[test]
fn empty_receiver_checkpoint_is_before_the_first_frame() {
    let packet = feedback_packet(42, 255, &[]);
    let events = parse_new(&packet, 42, 0);
    assert_eq!(events.checkpoint_frame_id, Some(-1));
}

#[test]
fn ignores_feedback_for_other_ssrc() {
    let packet = feedback_packet(43, 7, &[]);
    let events = parse_new(&packet, 42, 0);
    assert_eq!(events.checkpoint_frame_id, None);
    assert!(events.nacks.is_empty());
}

#[test]
fn parses_pli_in_compound_packet() {
    // Receiver report (empty, packet type 201) followed by PLI for our ssrc.
    let mut p = vec![0x80, 201, 0, 1];
    p.extend_from_slice(&0xEEEE_EEEE_u32.to_be_bytes());
    p.extend_from_slice(&[0x80 | SUBTYPE_PICTURE_LOSS, PT_PAYLOAD_SPECIFIC, 0, 2]);
    p.extend_from_slice(&0xEEEE_EEEE_u32.to_be_bytes());
    p.extend_from_slice(&42_u32.to_be_bytes());
    let events = parse_new(&p, 42, 0);
    assert!(events.picture_loss);
}

#[test]
fn ntp_time_counts_from_1900() {
    assert_eq!(ntp_timestamp(0, 0), NTP_UNIX_OFFSET << 32);
    // Half a second is half of the fraction.
    assert_eq!(ntp_timestamp(1, 500_000_000), ((NTP_UNIX_OFFSET + 1) << 32) + 0x8000_0000);
}

#[test]
fn the_wall_clock_is_past_2020_and_does_not_stand_still() {
    let first = ntp_now();
    assert!(first >> 32 > NTP_UNIX_OFFSET + 1_577_836_800);
    let second = ntp_now();
    assert!(second >= first);
}

fn receiver_report(last_report: u32, delay: u32) -> Vec<u8> {
    let mut p = vec![0x81, 201, 0, 7];
    p.extend_from_slice(&0xEEEE_EEEE_u32.to_be_bytes());
    p.extend_from_slice(&42_u32.to_be_bytes());
    p.extend_from_slice(&[0; 12]);
    p.extend_from_slice(&last_report.to_be_bytes());
    p.extend_from_slice(&delay.to_be_bytes());
    p
}

#[test]
fn a_round_trip_is_read_from_a_receiver_report() {
    let sent: u64 = 0x1234_5678_9ABC_0000;
    // The report came back a second later, of which the receiver held it half.
    let arrived = sent + (1 << 32);
    let report = receiver_report((sent >> 16) as u32, 0x8000);
    let mut events = ReceiverEvents::default();
    parse_at(&report, 42, 0, arrived, &mut events);
    assert_eq!(events.round_trip, Some(Duration::from_millis(500)));
}

#[test]
fn a_receiver_that_heard_no_report_measures_no_round_trip() {
    let report = receiver_report(0, 0x8000);
    let mut events = ReceiverEvents::default();
    parse_at(&report, 42, 0, 0x1234_5678_9ABC_0000, &mut events);
    assert_eq!(events.round_trip, None);
}

#[test]
fn a_lost_frame_is_one_nack() {
    let packet = feedback_packet(42, 7, &[(8, ALL_PACKETS_LOST, 0xff)]);
    let events = parse_new(&packet, 42, 0);
    assert_eq!(events.nacks, vec![Nack { frame_id: 8, packet_id: ALL_PACKETS_LOST }]);
}

#[test]
fn messages_of_a_compound_packet_add_up() {
    let mut packet = feedback_packet(42, 7, &[]);
    packet.extend_from_slice(&feedback_packet(42, 9, &[(10, 1, 0)]));
    let events = parse_new(&packet, 42, 0);
    assert_eq!(events.checkpoint_frame_id, Some(9));
    assert_eq!(events.nacks, vec![Nack { frame_id: 10, packet_id: 1 }]);
}

#[test]
fn a_cut_or_foreign_packet_tells_nothing() {
    let packet = feedback_packet(42, 7, &[]);
    let events = parse_new(&packet[..packet.len() - 1], 42, 0);
    assert_eq!(events.checkpoint_frame_id, None);
    let mut foreign = packet.clone();
    foreign[0] = 0x40 | SUBTYPE_FEEDBACK;
    let events = parse_new(&foreign, 42, 0);
    assert_eq!(events.checkpoint_frame_id, None);
    assert_eq!(events.round_trip, None);
}

#[test]
fn a_sender_report_ends_with_its_counters() {
    let sr = build_sender_report(1, 2, 3, 0x0A0B_0C0D, 0x0102_0304);
    assert_eq!(&sr[20..24], &[0x0A, 0x0B, 0x0C, 0x0D]);
    assert_eq!(&sr[24..28], &[1, 2, 3, 4]);
}

#[test]
fn frame_ids_expand_to_the_nearest_frame() {
    for id in [-1_i64, 0, 5, 127, 128, 255, 256, 1_000] {
        for distance in -128..128 {
            let low = ((id + distance) & 0xff) as u8;
            assert_eq!(expand_frame_id(low, id), id + distance);
        }
    }
}
