use gnome_shell_cast::encoder::{
    Element, EncoderPolicy, EncodingPolicy, FormatPolicy, Probe, Registry, VideoCodec,
};
use gnome_shell_cast::pipeline::{
    build, build_audio_stream, default_audio_monitor, find_aac_encoder, find_h264_encoder,
    launch_description, set_capture_size, set_encoder_bitrate, BitrateSetting, OptionValue,
    PipelineElement, Resolved, StreamSettings, PLAYLIST_NAME,
};

fn options(values: Vec<(&str, OptionValue)>) -> Vec<(String, OptionValue)> {
    values.into_iter().map(|(key, value)| (key.to_owned(), value)).collect()
}

fn text(value: &str) -> OptionValue {
    OptionValue::Text(value.to_owned())
}

/// Nothing requested means automatic everywhere; the values come from the
/// receiver's envelope later, not from a hardcoded default here.
#[test]
fn default_settings_from_empty_options() {
    let settings = StreamSettings::from_options(&options(vec![]));
    assert_eq!(settings.size, None);
    assert_eq!(settings.fps, None);
    assert_eq!(settings.bitrate_kbps, None);
    assert_eq!(settings.audio_bitrate_kbps, None);
    assert_eq!(settings, StreamSettings::default());
}

#[test]
fn zero_means_automatic() {
    let settings = StreamSettings::from_options(&options(vec![
        ("fps", OptionValue::Int(0)),
        ("bitrate-kbps", OptionValue::Int(0)),
    ]));
    assert_eq!(settings.fps, None);
    assert_eq!(settings.bitrate_kbps, None);
}

#[test]
fn options_are_clamped() {
    let settings = StreamSettings::from_options(&options(vec![
        ("fps", OptionValue::Int(500)),
        ("bitrate-kbps", OptionValue::Int(1)),
    ]));
    assert_eq!(settings.fps, Some(60));
    assert_eq!(settings.bitrate_kbps, Some(100));
}

#[test]
fn video_codec_option_is_parsed_and_unknown_values_are_automatic() {
    assert_eq!(
        StreamSettings::from_options(&options(vec![("video-codec", text("vp8"))])).video_codec,
        Some(VideoCodec::Vp8)
    );
    assert_eq!(
        StreamSettings::from_options(&options(vec![("video-codec", text("future-codec"))]))
            .video_codec,
        None
    );
}

#[test]
fn high_resolution_and_bitrate_pass_through() {
    let settings = StreamSettings::from_options(&options(vec![
        ("width", OptionValue::Int(3840)),
        ("height", OptionValue::Int(2160)),
        ("bitrate-kbps", OptionValue::Int(30_000)),
    ]));
    assert_eq!(settings.size, Some((3840, 2160)));
    assert_eq!(settings.bitrate_kbps, Some(30_000));
}

#[test]
fn absurd_size_and_bitrate_are_capped() {
    let settings = StreamSettings::from_options(&options(vec![
        ("width", OptionValue::Int(100_000)),
        ("height", OptionValue::Int(100_000)),
        ("bitrate-kbps", OptionValue::Int(999_999)),
    ]));
    assert_eq!(settings.size, Some((7680, 4320)));
    assert_eq!(settings.bitrate_kbps, Some(60_000));
}

#[test]
fn half_a_size_and_wrong_types_are_automatic() {
    let settings = StreamSettings::from_options(&options(vec![
        ("width", OptionValue::Int(1280)),
        ("height", OptionValue::Int(-1)),
        ("fps", text("30")),
        ("audio-bitrate-kbps", OptionValue::Other),
        ("video-encoder", OptionValue::Int(3)),
    ]));
    assert_eq!(settings, StreamSettings::default());
}

#[test]
fn audio_and_encoding_options_are_read() {
    let settings = StreamSettings::from_options(&options(vec![
        ("audio-bitrate-kbps", OptionValue::Int(1_000)),
        ("video-encoder", text("nvenc")),
        ("video-format", text("i420")),
        ("unknown", OptionValue::Other),
        ("audio-bitrate-kbps", OptionValue::Int(20)),
    ]));
    assert_eq!(settings.audio_bitrate_kbps, Some(512));
    assert_eq!(
        settings.encoding,
        EncodingPolicy { encoder: EncoderPolicy::Nvenc, format: FormatPolicy::I420 }
    );
}

#[derive(Default)]
struct Limit(i32);

#[test]
fn a_request_is_combined_with_its_constraints() {
    type Request = (Option<(i32, i32)>, Option<i32>, Option<i32>, Option<i32>, (i32, i32), i32);
    let combine = |size, fps, video, audio, captured, limit: &Limit| -> Request {
        (size, fps, video, audio, captured, limit.0)
    };
    let automatic = StreamSettings::default();
    assert_eq!(
        automatic.resolve(&Limit(7), &combine),
        (None, None, None, None, (1920, 1080), 7)
    );
    let settings = StreamSettings {
        size: Some((1280, 720)),
        fps: Some(24),
        bitrate_kbps: Some(5_000),
        audio_bitrate_kbps: Some(96),
        ..automatic
    };
    assert_eq!(
        settings.resolve_local(&combine),
        (Some((1280, 720)), Some(24), Some(5_000), Some(96), (1280, 720), 0)
    );
}

#[test]
fn description_scales_when_size_is_set() {
    let settings = StreamSettings { size: Some((1280, 720)), ..Default::default() };
    let desc = launch_description(
        Some((3, 42)),
        &settings,
        30,
        "/run/x",
        None,
        "x264enc bitrate=4000",
    );
    assert!(desc.contains("width=1280,height=720"));
    assert!(desc.contains("format={NV12,I420}"));
    assert!(desc.contains("fd=3 path=42"));
    assert!(desc.contains("x264enc bitrate=4000 ! h264parse"));
    assert!(desc.contains("/run/x/stream.m3u8"));
    assert!(!desc.contains("pulsesrc"));
}

#[test]
fn forced_pixel_format_reaches_the_caps() {
    let settings = StreamSettings {
        encoding: EncodingPolicy { format: FormatPolicy::Nv12, ..Default::default() },
        ..Default::default()
    };
    let desc = launch_description(
        Some((3, 42)),
        &settings,
        30,
        "/run/x",
        None,
        "x264enc bitrate=4000",
    );
    assert!(desc.contains("format=NV12,"), "{desc}");
    assert!(!desc.contains("{NV12,I420}"));
}

#[test]
fn description_includes_audio_branch() {
    let desc = launch_description(
        Some((3, 42)),
        &StreamSettings::default(),
        30,
        "/run/x",
        Some(("alsa_output.pci.monitor", "fdkaacenc")),
        "x264enc bitrate=4000",
    );
    assert!(desc.contains("hls.video"));
    assert!(desc.contains("pulsesrc device=alsa_output.pci.monitor"));
    assert!(desc.contains("fdkaacenc bitrate=128000"));
}

#[test]
fn audio_only_description_has_no_video_branch() {
    let desc = launch_description(
        None,
        &StreamSettings::default(),
        30,
        "/run/x",
        Some(("alsa_output.pci.monitor", "fdkaacenc")),
        "x264enc bitrate=4000",
    );
    assert!(!desc.contains("pipewiresrc"));
    assert!(!desc.contains("x264enc"));
    assert!(!desc.contains("hls.video"));
    assert!(desc.starts_with("hlssink2 name=hls"));
    assert!(desc.contains("/run/x/stream.m3u8"));
    assert!(desc.contains("pulsesrc device=alsa_output.pci.monitor"));
    assert!(desc.contains("hls.audio"));
}

#[test]
fn the_whole_description_is_spelled_out() {
    let settings = StreamSettings { size: Some((640, 360)), ..Default::default() };
    assert_eq!(
        launch_description(Some((-1, 7)), &settings, 25, "/d", Some(("m", "faac")), "venc"),
        "pipewiresrc fd=-1 path=7 do-timestamp=true keepalive-time=1000 resend-last=true \
         ! queue leaky=downstream max-size-buffers=3 max-size-bytes=0 max-size-time=0 \
         ! videoconvert ! videoscale ! videorate \
         ! video/x-raw,format={NV12,I420},framerate=25/1,width=640,height=360,\
         pixel-aspect-ratio=1/1 \
         ! venc ! h264parse ! queue ! hls.video \
         hlssink2 name=hls target-duration=1 playlist-length=3 max-files=6 \
         playlist-location=/d/stream.m3u8 location=/d/segment%05d.ts \
         pulsesrc device=m provide-clock=false \
         ! queue ! audioconvert ! audioresample \
         ! faac bitrate=128000 ! aacparse ! queue ! hls.audio"
    );
    assert_eq!(PLAYLIST_NAME, "stream.m3u8");
}

fn registry(names: &[&str]) -> Registry {
    Registry {
        elements: names
            .iter()
            .map(|name| Element { name: name.to_string(), formats: vec![] })
            .collect(),
        va_plugin: false,
    }
}

#[test]
fn the_preferred_aac_encoder_is_found() {
    assert_eq!(find_aac_encoder(&registry(&["faac", "avenc_aac"])), Some("avenc_aac"));
    assert_eq!(find_aac_encoder(&registry(&["faac"])), Some("faac"));
    assert_eq!(find_aac_encoder(&registry(&["opusenc"])), None);
}

#[test]
fn each_encoder_takes_its_bitrate_its_own_way() {
    let setting = |factory| set_encoder_bitrate(factory, 2_500_700);
    assert_eq!(setting("vp8enc"), BitrateSetting::TargetBitrateBps(2_500_700));
    assert_eq!(setting("vp9enc"), BitrateSetting::TargetBitrateBps(2_500_700));
    assert_eq!(setting("svtav1enc"), BitrateSetting::TargetBitrateKbps(2_500));
    assert_eq!(setting("av1enc"), BitrateSetting::TargetBitrateKbps(2_500));
    assert_eq!(setting("x264enc"), BitrateSetting::BitrateKbps(2_500));
    assert_eq!(setting("vah264enc"), BitrateSetting::BitrateKbps(2_500));
    assert_eq!(setting("nvh264enc"), BitrateSetting::BitrateKbps(2_500));
    assert_eq!(setting("v4l2h264enc"), BitrateSetting::VideoBitrateControl(2_500_700));
    assert_eq!(setting("theoraenc"), BitrateSetting::LeaveAlone);
    assert_eq!(set_encoder_bitrate("x264enc", 10), BitrateSetting::BitrateKbps(1));
    assert_eq!(
        set_encoder_bitrate("vp8enc", u32::MAX),
        BitrateSetting::TargetBitrateBps(i32::MAX)
    );
}

#[test]
fn the_first_raw_video_filter_takes_the_new_size() {
    let part = |factory: &str, media_type: Option<&str>| PipelineElement {
        factory: factory.to_owned(),
        media_type: media_type.map(|name| name.to_owned()),
    };
    let elements = vec![
        part("pipewiresrc", None),
        part("capsfilter", None),
        part("capsfilter", Some("audio/x-raw")),
        part("videoscale", Some("video/x-raw")),
        part("capsfilter", Some("video/x-raw")),
        part("capsfilter", Some("video/x-raw")),
    ];
    assert_eq!(set_capture_size(&elements), Some(4));
    assert_eq!(set_capture_size(&vec![part("capsfilter", None)]), None);
}

#[test]
fn the_hls_encoder_is_picked_like_the_mirroring_one() {
    let auto = EncodingPolicy::default();
    let none = registry(&[]);
    let only = |prefix: &'static str| move |fragment: &str, _: Probe| fragment.starts_with(prefix);
    let pick = |prefix| find_h264_encoder(4_000, 30, auto, &none, &only(prefix)).unwrap();
    assert_eq!(
        pick("vah264lpenc"),
        "vah264lpenc name=venc bitrate=4000 rate-control=cbr key-int-max=30"
    );
    assert_eq!(
        pick("nv"),
        "nvh264enc name=venc bitrate=4000 rc-mode=cbr gop-size=30 bframes=0"
    );
    assert_eq!(
        pick("v4l2"),
        "v4l2h264enc name=venc \
         extra-controls=\"controls,video_bitrate=4000000,video_gop_size=30\""
    );
    assert_eq!(
        pick("x264"),
        "x264enc name=venc tune=zerolatency speed-preset=veryfast bitrate=4000 key-int-max=30 \
         bframes=0"
    );
    let software = EncodingPolicy { encoder: EncoderPolicy::Software, ..auto };
    assert_eq!(find_h264_encoder(4_000, 30, software, &none, &only("va")), None);
}

#[test]
fn audio_streams_prefer_mp3() {
    let (description, content_type) =
        build_audio_stream("sink.monitor", &registry(&["faac", "lamemp3enc"])).unwrap();
    assert_eq!(content_type, "audio/mpeg");
    assert_eq!(
        description,
        "pulsesrc device=sink.monitor provide-clock=false \
         ! queue ! audioconvert ! audioresample ! audio/x-raw,rate=44100,channels=2 \
         ! lamemp3enc target=bitrate bitrate=128 cbr=true \
         ! appsink name=asink sync=false max-buffers=64 drop=false"
    );
    let (description, content_type) =
        build_audio_stream("m", &registry(&["voaacenc"])).unwrap();
    assert_eq!(content_type, "audio/aac");
    assert!(description.contains(
        "! voaacenc bitrate=128000 ! aacparse ! audio/mpeg,mpegversion=4,stream-format=adts ! appsink"
    ));
    assert_eq!(
        build_audio_stream("m", &registry(&[])).unwrap_err(),
        "no MP3 or AAC encoder found (install gst-plugins-ugly, fdk-aac/gst-plugins-bad, or gst-libav)"
    );
}

fn resolved() -> Resolved {
    Resolved {
        size: (1920, 1080),
        fps: 30,
        video_bitrate_kbps: 4_000,
        video_min_bitrate_bps: 300_000,
        video_max_bitrate_bps: 5_000_000,
        audio_bitrate_bps: 128_000,
        sample_rate: 48_000,
        channels: 2,
    }
}

#[test]
fn an_hls_cast_degrades_to_video_only() {
    let settings = StreamSettings::default();
    let software = |_: &str, probe: Probe| probe == Probe::Parses;
    let plan = |monitor, names: &[&str]| {
        build(
            Some((3, 42)),
            &settings,
            &resolved(),
            "/run/x",
            monitor,
            &registry(names),
            &software,
        )
    };
    let both = plan(Some("m"), &["fdkaacenc"]).ok().unwrap();
    assert!(!both.audio_missing);
    assert!(both.description.contains("! fdkaacenc bitrate=128000"));
    assert!(both.description.contains("bitrate=4000 key-int-max=30 bframes=0 ! h264parse"));
    let missing = plan(Some("m"), &[]).ok().unwrap();
    assert!(missing.audio_missing);
    assert!(!missing.description.contains("pulsesrc"));
    let silent = plan(None, &["fdkaacenc"]).ok().unwrap();
    assert!(!silent.audio_missing);
    assert!(!silent.description.contains("pulsesrc"));
}

#[test]
fn an_hls_cast_fails_with_the_reason() {
    let settings = StreamSettings {
        encoding: EncodingPolicy { encoder: EncoderPolicy::VaApi, ..Default::default() },
        ..Default::default()
    };
    let never = |_: &str, _: Probe| false;
    let plan = build(Some((3, 42)), &settings, &resolved(), "/d", None, &registry(&[]), &never);
    assert_eq!(
        plan.err().unwrap(),
        "No VA-API encoder can be used for this device. Set the video encoder preference back to \
         automatic."
    );
    // Without video there is nothing to encode it with.
    let audio =
        build(None, &settings, &resolved(), "/d", Some("m"), &registry(&["faac"]), &never);
    assert!(audio.ok().unwrap().description.starts_with("hlssink2 "));
}

#[test]
fn the_monitor_of_the_default_sink_is_named_after_it() {
    assert_eq!(
        default_audio_monitor(true, Some("  alsa_output.pci\n")),
        Some("alsa_output.pci.monitor".to_owned())
    );
    assert_eq!(default_audio_monitor(true, Some(" \t\n")), None);
    assert_eq!(default_audio_monitor(false, Some("alsa_output.pci\n")), None);
    assert_eq!(default_audio_monitor(true, None), None);
}
