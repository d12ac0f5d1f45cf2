use gnome_shell_cast::cast::{
    abandoned, await_media, ended_event, has_metadata, keep_alive, route, CastEvent, Channel,
    KeepAlive, LoadMedia, MediaPoll, Received, WaitStep,
};
use gnome_shell_cast::pipeline::OptionValue;
use gnome_shell_cast::state::{
    list_devices, CastDetails, Device, Event, SharedState, SourceKind, StartError,
};
use gnome_shell_cast::text::{
    lines, push_decimal, push_signed, split_at_char, split_words, starts_with, trim,
};
use gnome_shell_cast::time::{Duration, Instant};
use gnome_shell_cast::volume::{
    connect_message, handle, pong_message, react_to, stays_connected, Reaction, ReadOutcome,
    VolumeSession, NS_CONNECTION, NS_HEARTBEAT, NS_RECEIVER, RECEIVER_ID,
};

fn at_secs(secs: u64) -> Instant {
    Instant::from_nanos(0).checked_add(Duration::from_secs(secs)).unwrap()
}

fn device(id: &str, name: &str, has_video: bool) -> Device {
    Device {
        id: id.to_owned(),
        name: name.to_owned(),
        host: "192.168.1.7".to_owned(),
        port: 8009,
        ca: 5,
        has_video,
    }
}

#[test]
fn devices_are_listed_by_name() {
    let devices = vec![
        device("3", "Kitchen", false),
        device("1", "Bedroom", true),
        device("2", "Kitchen TV", true),
        device("4", "Ärger", true),
        device("5", "Bedroom", true),
        device("6", "", true),
    ];
    let list = list_devices(&devices);
    let order: Vec<&str> = list.iter().map(|entry| entry.id.as_str()).collect();
    assert_eq!(order, ["6", "1", "5", "3", "2", "4"]);
    let mut names: Vec<&str> = devices.iter().map(|d| d.name.as_str()).collect();
    names.sort();
    let listed: Vec<&str> = list.iter().map(|entry| entry.name.as_str()).collect();
    assert_eq!(listed, names);
    assert_eq!(list[1].address, "192.168.1.7:8009");
    assert_eq!(list[1].ca, 5);
    assert!(list_devices(&vec![]).is_empty());
}

#[test]
fn a_cast_starts_on_a_known_device() {
    let devices = vec![device("tv", "Living room", true), device("sp", "Speaker", false)];
    let mut state = SharedState::new(at_secs(0));
    state.set_last_event("error", "gone");
    let options = vec![("fps".to_owned(), OptionValue::Int(25))];
    let cast = state.start_cast(&devices, "tv", 3, &options, at_secs(5)).ok().unwrap();
    assert_eq!((cast.device, cast.source, cast.generation), (0, SourceKind::Choose, 1));
    assert_eq!(cast.settings.fps, Some(25));
    assert_eq!(state.last_event(), (String::new(), String::new()));
    let cast = state.start_cast(&devices, "sp", 2, &vec![], at_secs(6)).ok().unwrap();
    assert_eq!((cast.device, cast.source, cast.generation), (1, SourceKind::Audio, 2));
    assert_eq!(state.generation(), 2);
}

#[test]
fn a_cast_that_cannot_start_says_why() {
    let devices = vec![device("sp", "Speaker", false)];
    let mut state = SharedState::new(at_secs(0));
    let mut refuse = |id: &str, source| {
        let error = state.start_cast(&devices, id, source, &vec![], at_secs(1)).err().unwrap();
        (error.message(), error.is_invalid_argument())
    };
    assert_eq!(refuse("sp", 4), ("unknown source type: 4".to_owned(), true));
    assert_eq!(refuse("tv", 0), ("unknown device: tv".to_owned(), false));
    for source in [0, 1, 3] {
        assert_eq!(
            refuse("sp", source),
            ("Speaker is audio-only and cannot receive screen casts".to_owned(), false)
        );
    }
    assert_eq!(state.generation(), 0);
    assert!(matches!(
        state.start_cast(&devices, "", 9, &vec![], at_secs(1)),
        Err(StartError::UnknownSource(9))
    ));
}

#[test]
fn the_daemon_exits_when_idle_for_long() {
    let mut state = SharedState::new(at_secs(0));
    assert_eq!(state.status(), ("idle".to_owned(), String::new()));
    assert!(!state.should_exit(at_secs(600)));
    assert!(state.should_exit(at_secs(601)));
    state.touch(at_secs(300));
    assert!(!state.should_exit(at_secs(900)));
    for busy in ["connecting", "casting"] {
        assert_eq!(state.set_status(busy, "tv", at_secs(0)), Event::State);
        assert!(!state.should_exit(at_secs(100_000)));
    }
    state.set_status("error", "tv", at_secs(0));
    assert!(state.should_exit(at_secs(601)));
}

#[test]
fn details_are_kept_until_cleared() {
    let mut state = SharedState::new(at_secs(0));
    state.set_details(CastDetails {
        transport: "hls".to_owned(),
        codec: "h264".to_owned(),
        encoder: "x264enc".to_owned(),
        format: String::new(),
        receiver_codecs: vec!["h264".to_owned()],
    });
    state.set_detail_format("I420");
    let details = state.details();
    assert_eq!((details.transport.as_str(), details.format.as_str()), ("hls", "I420"));
    assert_eq!(details.encoder, "x264enc");
    assert_eq!(details.receiver_codecs, ["h264"]);
    state.clear_details();
    let details = state.details();
    assert_eq!((details.transport.as_str(), details.codec.as_str()), ("", ""));
    assert!(details.receiver_codecs.is_empty());
}

#[test]
fn waiting_for_the_stream_ends_one_way_or_another() {
    for poll in [MediaPoll::Ready, MediaPoll::Empty, MediaPoll::Closed] {
        assert_eq!(await_media(true, poll), WaitStep::StopApp);
    }
    assert_eq!(await_media(false, MediaPoll::Ready), WaitStep::Load);
    assert_eq!(await_media(false, MediaPoll::Empty), WaitStep::Sleep);
    assert_eq!(await_media(false, MediaPoll::Closed), WaitStep::Abandon);
    assert_eq!(abandoned(), "session ended before the stream was ready");
}

#[test]
fn pings_keep_the_connection_alive() {
    assert!(matches!(keep_alive(Received::Ping, true), KeepAlive::Pong));
    assert!(matches!(keep_alive(Received::Other, false), KeepAlive::Continue));
    assert!(matches!(keep_alive(Received::Lost("eof".to_owned()), true), KeepAlive::Finish));
    assert!(matches!(
        keep_alive(Received::Lost("eof".to_owned()), false),
        KeepAlive::Fail(m) if m == "connection lost: eof"
    ));
    assert!(matches!(ended_event(Ok(())), CastEvent::Ended(m) if m == "stopped"));
    assert!(matches!(ended_event(Err("x".to_owned())), CastEvent::Ended(m) if m == "x"));
}

#[test]
fn messages_go_to_the_first_channel_that_takes_them() {
    assert_eq!(route(true, true, true, true), Channel::Connection);
    assert_eq!(route(false, true, true, true), Channel::Heartbeat);
    assert_eq!(route(false, false, true, true), Channel::Media);
    assert_eq!(route(false, false, false, true), Channel::Receiver);
    assert_eq!(route(false, false, false, false), Channel::Raw);
}

#[test]
fn only_titled_media_has_metadata() {
    let media = |title: Option<&str>, artist: Option<&str>| LoadMedia {
        url: "http://host/stream.m3u8".to_owned(),
        content_type: "application/x-mpegurl".to_owned(),
        title: title.map(|t| t.to_owned()),
        artist: artist.map(|t| t.to_owned()),
    };
    assert!(!has_metadata(&media(None, None)));
    assert!(has_metadata(&media(Some("Screen"), None)));
    assert!(has_metadata(&media(None, Some("laptop"))));
}

#[test]
fn messages_are_told_apart_by_namespace_and_type() {
    assert_eq!(react_to(NS_HEARTBEAT, Some("PING")), Reaction::Pong);
    assert_eq!(react_to(NS_HEARTBEAT, Some("PONG")), Reaction::Ignore);
    assert_eq!(react_to(NS_RECEIVER, Some("PING")), Reaction::Ignore);
    assert_eq!(react_to(NS_RECEIVER, Some("RECEIVER_STATUS")), Reaction::ReportLevel);
    assert_eq!(react_to(NS_RECEIVER, None), Reaction::Ignore);

    assert_eq!(handle(NS_HEARTBEAT, Some("{\"type\":\"PING\"}")), Reaction::Pong);
    assert_eq!(
        handle(NS_RECEIVER, Some("{\"status\":{\"volume\":{}},\"type\":\"RECEIVER_STATUS\"}")),
        Reaction::ReportLevel
    );
    for junk in ["", "PING", "[\"PING\"]", "{\"type\":1}", "{\"kind\":\"PING\"}", "\"PING\""] {
        assert_eq!(handle(NS_HEARTBEAT, Some(junk)), Reaction::Ignore);
    }
    assert_eq!(handle(NS_HEARTBEAT, None), Reaction::Ignore);
}

#[test]
fn outgoing_messages_are_json_objects() {
    let connect = connect_message();
    assert_eq!((connect.namespace, connect.destination.as_str()), (NS_CONNECTION, RECEIVER_ID));
    assert_eq!(connect.payload, "{\"type\":\"CONNECT\",\"userAgent\":\"gnome-shell-cast\"}");

    let pong = pong_message("sender-7");
    assert_eq!((pong.namespace, pong.destination.as_str()), (NS_HEARTBEAT, "sender-7"));
    assert_eq!(pong.payload, "{\"type\":\"PONG\"}");
    // An answer is not answered again.
    assert_eq!(handle(pong.namespace, Some(&pong.payload)), Reaction::Ignore);
}

#[test]
fn a_volume_session_counts_requests_and_keeps_alive() {
    let mut session = VolumeSession::new(at_secs(0));
    let status = session.connected(at_secs(10));
    assert_eq!((status.namespace, status.destination.as_str()), (NS_RECEIVER, RECEIVER_ID));
    assert_eq!(status.payload, "{\"requestId\":1,\"type\":\"GET_STATUS\"}");
    assert_eq!(session.next_request_id(), 2);
    assert!(session.due_ping(at_secs(14)).is_none());
    let ping = session.due_ping(at_secs(15)).unwrap();
    assert_eq!(ping.payload, "{\"type\":\"PING\"}");
    assert_eq!(handle(ping.namespace, Some(&ping.payload)), Reaction::Pong);
    assert!(session.due_ping(at_secs(19)).is_none());
    assert!(session.due_ping(at_secs(20)).is_some());
    assert!(stays_connected(ReadOutcome::Message));
    assert!(stays_connected(ReadOutcome::TimedOut));
    assert!(!stays_connected(ReadOutcome::Failed));
}

#[test]
fn numbers_are_written_in_decimal() {
    for n in [0_u64, 7, 10, 99, 100, 4_294_967_295, u64::MAX] {
        let mut text = String::from("n=");
        push_decimal(&mut text, n);
        assert_eq!(text, format!("n={n}"));
    }
    for n in [0_i64, -1, 42, -10, i64::MAX, i64::MIN] {
        let mut text = String::new();
        push_signed(&mut text, n);
        assert_eq!(text, format!("{n}"));
    }
}

#[test]
fn text_is_cut_as_usual() {
    for text in ["", " ", "a", " a b\t", "\u{2003}é\u{a0}", "\u{200b}x\u{200b}", "\u{85}y\u{3000}"] {
        assert_eq!(trim(text), text.trim());
        assert_eq!(split_words(text), text.split_whitespace().collect::<Vec<_>>());
    }
    for text in ["", "\n", "a", "a\n", "a\r\nb", "a\n\nb\r", "\r\n", "x\r", "é\nü\r\n\n"] {
        assert_eq!(lines(text), text.lines().collect::<Vec<_>>());
    }
    for text in ["", "=", "a=b", "a=b=c", "ab", "é=ü"] {
        assert_eq!(split_at_char(text, '='), text.split_once('='));
        assert_eq!(starts_with(text, "a"), text.starts_with("a"));
        assert!(starts_with(text, ""));
    }
    assert!(!starts_with("a", "ab"));
}

#[test]
fn every_white_space_character_is_known() {
    for code in 0..=0x10_ffff_u32 {
        if let Some(c) = char::from_u32(code) {
            if c.is_whitespace() != trim(&c.to_string()).is_empty() {
                panic!("{code:x}");
            }
        }
    }
}

#[test]
fn time_saturates_at_its_ends() {
    let early = Instant::from_nanos(i128::MIN);
    let late = Instant::from_nanos(i128::MAX);
    assert_eq!(late.saturating_duration_since(early).nanos, u128::MAX);
    assert!(early.saturating_duration_since(late).is_zero());
    assert_eq!(late.checked_add(Duration::from_nanos(1)), None);
    assert_eq!(early.checked_sub(Duration::from_micros(1)), None);
    assert_eq!(
        at_secs(2).checked_sub(Duration::from_micros(500_000)),
        Some(Instant::from_nanos(1_500_000_000))
    );
}
