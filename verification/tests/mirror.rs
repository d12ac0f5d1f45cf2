use std::collections::VecDeque;

use gnome_shell_cast::crypto::StreamKeys;
use gnome_shell_cast::encoder::{
    EncoderPolicy, EncodingPolicy, FormatPolicy, Probe, Registry, VideoCodec,
};
use gnome_shell_cast::mirror::{
    accepted_codec_names, announce, audio_params, bits_per_second, build_pipeline, check_sources,
    encoded_chunk, failed_outcome, offer_codecs, offer_from, on_session_event, plan_media,
    pop_bus_error, prepare_offer, rate_control, rtp_timestamp, select_streams, select_video,
    stream_configs, video_params, video_params_from, Answer, BusMessage, Failure, Outcome,
    SelectedVideo, SessionEvent,
};
use gnome_shell_cast::pipeline::{Resolved, StreamSettings};
use gnome_shell_cast::state::{Event, SharedState};
use gnome_shell_cast::stream::StreamKind;
use gnome_shell_cast::time::Instant;

fn resolved() -> Resolved {
    Resolved {
        size: (1920, 1080),
        fps: 30,
        video_bitrate_kbps: 4_000,
        video_min_bitrate_bps: 300_000,
        video_max_bitrate_bps: 5_000_000,
        audio_bitrate_bps: 128_000,
        sample_rate: 48_000,
        channels: 2,
    }
}

fn keys(ssrc: u32) -> StreamKeys {
    StreamKeys { ssrc, aes_key: [1; 16], aes_iv_mask: [2; 16] }
}

fn nothing_installed() -> Registry {
    Registry { elements: vec![], va_plugin: false }
}

fn software(_: &str, probe: Probe) -> bool {
    probe == Probe::Parses
}

fn nothing(_: &str, _: Probe) -> bool {
    false
}

#[test]
fn an_audio_only_cast_needs_a_monitor() {
    assert!(matches!(check_sources(true, true), Ok(false)));
    assert!(matches!(check_sources(false, true), Ok(false)));
    assert!(matches!(check_sources(true, false), Ok(true)));
    assert!(matches!(
        check_sources(false, false),
        Err(Outcome::Unavailable(m)) if m == "audio-only cast but no system audio monitor was found"
    ));
}

#[test]
fn bitrates_saturate() {
    assert_eq!(bits_per_second(4_000), 4_000_000);
    assert_eq!(bits_per_second(-1), 0);
    assert_eq!(bits_per_second(i32::MAX), u32::MAX);
    assert_eq!(bits_per_second(4_294_967), 4_294_967_000);
}

#[test]
fn the_audio_offer_carries_its_keys() {
    let params = audio_params(&keys(1_234), &resolved());
    assert_eq!((params.index, params.ssrc, params.bit_rate), (0, 1_234, 128_000));
    assert_eq!((params.aes_key, params.aes_iv_mask), ([1; 16], [2; 16]));
    let odd = Resolved { audio_bitrate_bps: -5, ..resolved() };
    assert_eq!(audio_params(&keys(1), &odd).bit_rate, 128_000);
}

#[test]
fn codecs_are_offered_or_the_choice_is_reported() {
    let automatic = StreamSettings::default();
    let none = nothing_installed();
    assert!(matches!(offer_codecs(false, &automatic, &none, &nothing), Ok(c) if c.is_empty()));
    assert!(matches!(offer_codecs(true, &automatic, &none, &software), Ok(c) if c.len() == 4));
    assert!(matches!(
        offer_codecs(true, &automatic, &none, &nothing),
        Err(Outcome::Unavailable(m)) if m.starts_with("No video encoder is installed.")
    ));
    let pinned = StreamSettings {
        encoding: EncodingPolicy { encoder: EncoderPolicy::Nvenc, format: FormatPolicy::Auto },
        ..automatic
    };
    assert!(matches!(
        offer_codecs(true, &pinned, &none, &nothing),
        Err(Outcome::Finished(Err(m))) if m.starts_with("No NVENC encoder")
    ));
    let forced = StreamSettings { video_codec: Some(VideoCodec::Av1), ..automatic };
    assert!(matches!(
        offer_from(&forced, vec![]),
        Err(Outcome::Finished(Err(m)))
            if m == "no av1 encoder matches the selected encoder and pixel format"
    ));
    assert!(matches!(
        offer_from(&forced, vec![VideoCodec::Av1]),
        Ok(c) if c == [VideoCodec::Av1]
    ));
}

#[test]
fn every_codec_gets_a_variant_of_its_own() {
    let codecs = vec![VideoCodec::H264, VideoCodec::Vp8];
    let drawn = vec![keys(50_001), keys(51_002)];
    let params = video_params_from(&codecs, &drawn, (1920, -1), -30, 4_000_000);
    assert_eq!(params.len(), 2);
    assert_eq!((params[0].index, params[1].index), (1, 2));
    assert_eq!((params[0].ssrc, params[1].ssrc), (50_001, 51_002));
    assert_eq!((params[0].codec_name, params[1].codec_name), ("h264", "vp8"));
    assert_eq!((params[1].width, params[1].height, params[1].max_fps), (1920, 0, 0));
    assert_eq!(params[0].max_bit_rate, 4_000_000);

    let random = video_params(&codecs, (1280, 720), 30, 1);
    assert!((50_000..51_000).contains(&random[0].ssrc));
    assert!((51_000..52_000).contains(&random[1].ssrc));
    assert_ne!(random[0].aes_key, random[1].aes_key);
}

fn answer(send_indexes: &[u32]) -> Answer {
    Answer { udp_port: 9, send_indexes: send_indexes.to_vec() }
}

#[test]
fn the_best_accepted_variant_is_sent() {
    let codecs = vec![VideoCodec::H264, VideoCodec::Vp9, VideoCodec::Vp8];
    let params =
        video_params_from(&codecs, &vec![keys(1), keys(2), keys(3)], (1920, 1080), 30, 1);
    let video = select_video(&answer(&[3, 0, 2]), &params, &codecs).unwrap();
    assert_eq!((video.codec, video.ssrc), (VideoCodec::Vp9, 2));
    assert_eq!(accepted_codec_names(&answer(&[3, 0, 2]), &params, &codecs), ["vp9", "vp8"]);
    assert!(select_video(&answer(&[0, 4]), &params, &codecs).is_none());
    assert!(accepted_codec_names(&answer(&[0, 4]), &params, &codecs).is_empty());
}

#[test]
fn an_answer_has_to_cover_what_is_cast() {
    let codecs = vec![VideoCodec::Vp8];
    let params = video_params_from(&codecs, &vec![keys(5)], (1920, 1080), 30, 1);
    let none = vec![];
    let settings = StreamSettings::default();
    let registry = nothing_installed();
    let select = |indexes: &[u32], audio, capture, usable: fn(&str, Probe) -> bool| {
        let (p, c) = if capture { (&params, &codecs) } else { (&none, &vec![]) };
        select_streams(
            &answer(indexes),
            p,
            c,
            audio,
            capture,
            &settings,
            &resolved(),
            &registry,
            &|text: &str, probe: Probe| usable(text, probe),
        )
    };
    let both = select(&[0, 1], true, true, software).ok().unwrap();
    assert!(both.audio);
    assert_eq!(both.video.unwrap().codec, VideoCodec::Vp8);
    let (fragment, hardware) = both.encoder.unwrap();
    assert!(fragment.starts_with("vp8enc name=venc") && fragment.contains("=4000000 "));
    assert!(!hardware);
    let silent = select(&[1], true, true, software).ok().unwrap();
    assert!(!silent.audio);
    let speaker = select(&[0], true, false, nothing).ok().unwrap();
    assert!(speaker.audio && speaker.video.is_none() && speaker.encoder.is_none());

    assert_eq!(
        select(&[0], true, true, software).err().unwrap(),
        "receiver accepted none of the offered video codecs"
    );
    assert_eq!(
        select(&[1], true, false, software).err().unwrap(),
        "receiver did not accept the audio stream"
    );
    assert_eq!(
        select(&[0], false, false, software).err().unwrap(),
        "receiver did not accept the audio stream"
    );
    assert_eq!(
        select(&[0, 1], true, true, nothing).err().unwrap(),
        "no encoder for the negotiated video codec"
    );
}

fn selected_video() -> SelectedVideo {
    SelectedVideo { codec: VideoCodec::Vp8, ssrc: 50_007, aes_key: [3; 16], aes_iv_mask: [4; 16] }
}

#[test]
fn accepted_streams_are_set_up_video_first() {
    let configs = stream_configs(Some(selected_video()), Some(keys(1_001)), 96, 127);
    assert_eq!(configs.len(), 2);
    assert_eq!((configs[0].kind, configs[0].ssrc, configs[0].payload_type), (StreamKind::Video, 50_007, 96));
    assert_eq!((configs[0].aes_key, configs[0].aes_iv_mask), ([3; 16], [4; 16]));
    assert_eq!((configs[1].kind, configs[1].ssrc, configs[1].payload_type), (StreamKind::Audio, 1_001, 127));
    assert!(stream_configs(None, None, 96, 127).is_empty());
    assert_eq!(stream_configs(None, Some(keys(1_001)), 96, 127).len(), 1);
}

#[test]
fn only_automatic_settings_follow_the_link() {
    let automatic = StreamSettings::default();
    let snap = |max: (i32, i32), min: (i32, i32), start: (i32, i32)| vec![min, start, max];
    let control = rate_control(&automatic, &resolved(), &snap);
    assert_eq!((control.start_bps, control.min_bps, control.max_bps), (4_000_000, 300_000, 5_000_000));
    assert!(control.set_bitrate && control.set_size);
    assert_eq!(control.sizes, vec![(320, 180), (1920, 1080), (1920, 1080)]);
    assert_eq!(control.start_size, (1920, 1080));
    let pinned = StreamSettings {
        size: Some((1280, 720)),
        bitrate_kbps: Some(4_000),
        ..automatic
    };
    let odd = Resolved { video_min_bitrate_bps: -1, video_max_bitrate_bps: -1, ..resolved() };
    let control = rate_control(&pinned, &odd, &|_, _, _| vec![]);
    assert!(control.sizes.is_empty());
    assert!(!control.set_bitrate && !control.set_size);
    assert_eq!((control.min_bps, control.max_bps), (300_000, 4_000_000));
}

#[test]
fn a_session_announces_what_it_sends() {
    let mut state = SharedState::new(Instant::from_nanos(0));
    let event = announce(
        &mut state,
        "tv",
        Some(VideoCodec::Vp9),
        "vavp9enc".to_owned(),
        vec!["vp9".to_owned(), "vp8".to_owned()],
        Instant::from_nanos(5),
    );
    assert_eq!(event, Event::State);
    assert_eq!(state.status(), ("casting".to_owned(), "tv".to_owned()));
    let details = state.details();
    assert_eq!((details.transport.as_str(), details.codec.as_str()), ("mirror", "vp9"));
    assert_eq!((details.encoder.as_str(), details.format.as_str()), ("vavp9enc", ""));
    assert_eq!(details.receiver_codecs, ["vp9", "vp8"]);

    announce(&mut state, "speaker", None, String::new(), vec![], Instant::from_nanos(6));
    let details = state.details();
    assert_eq!((details.codec.as_str(), details.encoder.as_str()), ("opus", ""));
    assert!(details.receiver_codecs.is_empty());
}

#[test]
fn a_session_runs_until_something_ends_it() {
    let mut state = SharedState::new(Instant::from_nanos(0));
    assert!(on_session_event(&mut state, SessionEvent::Tick(None, None)).is_none());
    assert_eq!(state.details().format, "");
    assert!(on_session_event(&mut state, SessionEvent::Tick(None, Some("NV12".to_owned()))).is_none());
    assert_eq!(state.details().format, "NV12");
    // The first format is kept.
    assert!(on_session_event(&mut state, SessionEvent::Tick(None, Some("I420".to_owned()))).is_none());
    assert_eq!(state.details().format, "NV12");

    for event in [SessionEvent::StopRequested, SessionEvent::CaptureClosed, SessionEvent::ChannelClosed] {
        assert_eq!(on_session_event(&mut state, event), Some(Ok(())));
        assert_eq!(state.last_event(), (String::new(), String::new()));
    }
    let error = SessionEvent::Tick(Some("broken".to_owned()), None);
    assert_eq!(on_session_event(&mut state, error), Some(Err("broken".to_owned())));
    let ended = SessionEvent::DeviceEnded("switched off".to_owned());
    assert_eq!(on_session_event(&mut state, ended), Some(Ok(())));
    assert_eq!(state.last_event(), ("ended".to_owned(), "switched off".to_owned()));
}

#[test]
fn the_first_error_comes_off_the_bus() {
    let mut bus: VecDeque<BusMessage> = VecDeque::new();
    bus.push_back(BusMessage::Other);
    bus.push_back(BusMessage::Error("no device".to_owned()));
    bus.push_back(BusMessage::Error("again".to_owned()));
    bus.push_back(BusMessage::Other);
    assert_eq!(
        pop_bus_error(&mut bus),
        Some("mirroring pipeline error: no device".to_owned())
    );
    assert_eq!(bus.len(), 2);
    assert_eq!(pop_bus_error(&mut bus), Some("mirroring pipeline error: again".to_owned()));
    assert_eq!(pop_bus_error(&mut bus), None);
    assert!(bus.is_empty());
}

#[test]
fn the_mirroring_pipeline_is_spelled_out() {
    let settings = StreamSettings::default();
    assert_eq!(
        build_pipeline(Some((5, 77)), &settings, &resolved(), Some("vp8enc name=venc"), Some("m")),
        "pipewiresrc fd=5 path=77 do-timestamp=true keepalive-time=1000 resend-last=true \
         ! queue leaky=downstream max-size-buffers=3 max-size-bytes=0 max-size-time=0 \
         ! videoconvert ! videoscale ! videorate \
         ! video/x-raw,format={NV12,I420},framerate=30/1,width=1920,height=1080,\
         pixel-aspect-ratio=1/1 \
         ! vp8enc name=venc ! appsink name=vsink sync=false max-buffers=32 \
         pulsesrc device=m provide-clock=false \
         ! queue ! audioconvert ! audioresample \
         ! audio/x-raw,rate=48000,channels=2 \
         ! opusenc bitrate=128000 \
         ! appsink name=asink sync=false max-buffers=32"
    );
    // No capture or no encoder, no video branch.
    let audio = build_pipeline(None, &settings, &resolved(), Some("vp8enc"), Some("m"));
    assert!(audio.starts_with("pulsesrc"));
    assert_eq!(audio, build_pipeline(Some((5, 77)), &settings, &resolved(), None, Some("m")));
    assert_eq!(build_pipeline(None, &settings, &resolved(), None, None), "");
}

#[test]
fn timestamps_count_in_the_timebase() {
    assert_eq!(rtp_timestamp(0, 90_000), 0);
    assert_eq!(rtp_timestamp(1_000_000_000, 90_000), 90_000);
    assert_eq!(rtp_timestamp(33_333_333, 90_000), 2_999);
    assert_eq!(rtp_timestamp(2_000_000_000, 48_000), 96_000);
    // 47722 seconds at 90 kHz are past the end of the 32-bit numbers.
    assert_eq!(rtp_timestamp(47_722_000_000_000, 90_000), 12_704);
    let chunk = encoded_chunk(StreamKind::Video, Some(1_000_000_000), true, 90_000, 5, vec![1]);
    assert_eq!((chunk.kind, chunk.rtp_timestamp, chunk.ntp_timestamp), (StreamKind::Video, 90_000, 5));
    assert!(!chunk.is_key_frame);
    assert_eq!(chunk.data, vec![1]);
    let unknown = encoded_chunk(StreamKind::Audio, None, false, 48_000, 5, vec![]);
    assert!(unknown.is_key_frame);
    assert_eq!(unknown.rtp_timestamp, 0);
}

#[test]
fn an_offer_fits_what_there_is_to_send() {
    let settings = StreamSettings::default();
    let none = nothing_installed();
    let prepare = |capture, monitor, usable: fn(&str, Probe) -> bool| {
        prepare_offer(
            capture,
            monitor,
            &settings,
            &resolved(),
            &none,
            &|text: &str, probe: Probe| usable(text, probe),
        )
    };
    let both = prepare(true, true, software).ok().unwrap();
    assert_eq!(both.codecs.len(), 4);
    assert_eq!(both.video.len(), 4);
    assert_eq!(both.video[3].max_bit_rate, 4_000_000);
    assert!(!both.video_only);
    assert_eq!(both.audio.unwrap().ssrc, both.audio_keys.ssrc);
    assert!((1_000..2_000).contains(&both.audio_keys.ssrc));
    let silent = prepare(true, false, software).ok().unwrap();
    assert!(silent.video_only && silent.audio.is_none());
    let speaker = prepare(false, true, nothing).ok().unwrap();
    assert!(speaker.video.is_empty() && speaker.audio.is_some());
    assert!(matches!(prepare(false, false, software), Err(Outcome::Unavailable(_))));
    assert!(matches!(prepare(true, true, nothing), Err(Outcome::Unavailable(_))));
}

#[test]
fn the_plan_leaves_out_what_was_not_accepted() {
    let settings = StreamSettings::default();
    let plan = |audio| {
        let selected = gnome_shell_cast::mirror::Selected {
            video: Some(selected_video()),
            audio,
            encoder: Some(("vp8enc name=venc".to_owned(), false)),
        };
        plan_media(
            &selected,
            &keys(1_001),
            Some((5, 77)),
            Some("m"),
            &settings,
            &resolved(),
            &|max, min, start| vec![min, start, max],
            96,
            127,
        )
    };
    let both = plan(true);
    assert_eq!(both.streams.len(), 2);
    assert!(both.description.contains("vp8enc name=venc ! appsink name=vsink"));
    assert!(both.description.contains("pulsesrc device=m"));
    assert_eq!(both.control.start_bps, 4_000_000);
    assert_eq!(both.control.sizes, vec![(320, 180), (1920, 1080), (1920, 1080)]);
    let silent = plan(false);
    assert_eq!(silent.streams.len(), 1);
    assert!(!silent.description.contains("pulsesrc"));
}

#[test]
fn failures_before_media_flows_fall_back() {
    let unavailable = |failure, text: &str| {
        matches!(failed_outcome(failure), Outcome::Unavailable(m) if m == text)
    };
    assert!(unavailable(Failure::Negotiation("refused".to_owned()), "refused"));
    assert!(unavailable(
        Failure::NegotiationTask("panicked".to_owned()),
        "negotiation task failed: panicked"
    ));
    assert!(unavailable(Failure::Selection("nothing".to_owned()), "nothing"));
    assert!(unavailable(Failure::Media("no socket".to_owned()), "no socket"));
    assert!(matches!(
        failed_outcome(Failure::Playing("stuck".to_owned())),
        Outcome::Finished(Err(m)) if m == "starting mirroring pipeline: stuck"
    ));
}
