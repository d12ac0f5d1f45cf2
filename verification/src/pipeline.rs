//! Cast settings, and the launch descriptions of the HLS and progressive audio
//! pipelines.

use vstd::prelude::*;
use vstd::string::StringExecFns;

use crate::encoder::{
    allowed, caps_text, codec_named, encoder_policy_named, factories, factory_names, failure_text,
    format_policy_named, fragment_usable, is_allowed, kilobits, no_policy, policy_failure_message,
    lemma_named_encoders, probed, says, text_in, was_tried, EncoderPolicy, EncodingPolicy, FormatPolicy, Probe, Registry, VideoCodec,
};
use crate::text::{
    begins, decimal, lemma_occurs_within, occurs, push_decimal, push_signed, same, signed_decimal, starts_with, texts, trim,
    trimmed,
};

verus! {

/// The name of the playlist file.
pub const PLAYLIST_NAME: &'static str = "stream.m3u8";

/// What the user asked for. Every field is a request: `None` means automatic,
/// which defers to the receiver's constraints and the program's own limits.
#[derive(Clone, Copy, PartialEq, Eq, Debug)]
pub struct StreamSettings {
    pub size: Option<(i32, i32)>,
    pub fps: Option<i32>,
    pub bitrate_kbps: Option<i32>,
    pub audio_bitrate_kbps: Option<i32>,
    /// A forced Cast Streaming codec; `None` offers every usable codec.
    pub video_codec: Option<VideoCodec>,
    /// Which encoder and raw format the user will accept; `Auto` by default.
    pub encoding: EncodingPolicy,
}

/// The values a pipeline is built from: a request combined with what a receiver
/// can take.
#[derive(Clone, Copy, PartialEq, Eq, Debug)]
pub struct Resolved {
    pub size: (i32, i32),
    pub fps: i32,
    pub video_bitrate_kbps: i32,
    pub video_min_bitrate_bps: i32,
    pub video_max_bitrate_bps: i32,
    pub audio_bitrate_bps: i32,
    pub sample_rate: i32,
    pub channels: i32,
}

/// Settings that leave everything automatic.
pub open spec fn automatic() -> StreamSettings {
    StreamSettings {
        size: None,
        fps: None,
        bitrate_kbps: None,
        audio_bitrate_kbps: None,
        video_codec: None,
        encoding: no_policy(),
    }
}

impl Default for StreamSettings {
    fn default() -> (settings: Self)
        ensures
            settings == automatic(),
    {
        StreamSettings {
            size: None,
            fps: None,
            bitrate_kbps: None,
            audio_bitrate_kbps: None,
            video_codec: None,
            encoding: EncodingPolicy::default(),
        }
    }
}

/// The value of an option that came over the message bus.
pub enum OptionValue {
    Int(i32),
    Text(String),
    /// A value of some other type.
    Other,
}

/// The value that comes first under a key.
pub open spec fn option_value(options: Seq<(String, OptionValue)>, key: Seq<char>) -> Option<
    OptionValue,
>
    decreases options.len(),
{
    if options.len() == 0 {
        None
    } else if options[0].0@ == key {
        Some(options[0].1)
    } else {
        option_value(options.skip(1), key)
    }
}

/// The number under a key.
pub open spec fn int_option(options: Seq<(String, OptionValue)>, key: Seq<char>) -> Option<i32> {
    match option_value(options, key) {
        Some(OptionValue::Int(value)) => Some(value),
        _ => None,
    }
}

/// The text under a key.
pub open spec fn text_option(options: Seq<(String, OptionValue)>, key: Seq<char>) -> Option<
    Seq<char>,
> {
    match option_value(options, key) {
        Some(OptionValue::Text(value)) => Some(value@),
        _ => None,
    }
}

/// A value moved into a range.
pub open spec fn clamped(value: i32, low: i32, high: i32) -> i32 {
    if value < low {
        low
    } else if value > high {
        high
    } else {
        value
    }
}

/// A positive number moved into a range; anything else is automatic, which is
/// how 0 is spelled over the message bus.
pub open spec fn positive_in(value: Option<i32>, low: i32, high: i32) -> Option<i32> {
    match value {
        Some(number) => if number > 0 {
            Some(clamped(number, low, high))
        } else {
            None
        },
        None => None,
    }
}

/// The frame size that a width and a height ask for, capped at 8K.
pub open spec fn requested_size(width: Option<i32>, height: Option<i32>) -> Option<(i32, i32)> {
    match (width, height) {
        (Some(w), Some(h)) => if w > 0 && h > 0 {
            Some((clamped(w, 1, 7680), clamped(h, 1, 4320)))
        } else {
            None
        },
        _ => None,
    }
}

/// The settings that some options ask for.
pub open spec fn settings_from(options: Seq<(String, OptionValue)>) -> StreamSettings {
    StreamSettings {
        size: requested_size(int_option(options, "width"@), int_option(options, "height"@)),
        fps: positive_in(int_option(options, "fps"@), 1, 60),
        bitrate_kbps: positive_in(int_option(options, "bitrate-kbps"@), 100, 60_000),
        audio_bitrate_kbps: positive_in(int_option(options, "audio-bitrate-kbps"@), 16, 512),
        video_codec: match text_option(options, "video-codec"@) {
            Some(text) => codec_named(text),
            None => None,
        },
        encoding: EncodingPolicy {
            encoder: match text_option(options, "video-encoder"@) {
                Some(text) => encoder_policy_named(text),
                None => EncoderPolicy::Auto,
            },
            format: match text_option(options, "video-format"@) {
                Some(text) => format_policy_named(text),
                None => FormatPolicy::Auto,
            },
        },
    }
}

fn find_option<'a>(options: &'a Vec<(String, OptionValue)>, key: &str) -> (value: Option<
    &'a OptionValue,
>)
    ensures
        value is Some <==> option_value(options@, key@) is Some,
        value matches Some(found) ==> option_value(options@, key@) == Some(*found),
{
    let mut at: usize = 0;
    assert(options@.skip(0) =~= options@);
    while at < options.len()
        invariant
            at <= options@.len(),
            option_value(options@.skip(at as int), key@) == option_value(options@, key@),
        decreases options@.len() - at,
    {
        assert(options@.skip(at as int)[0] == options@[at as int]);
        if same(options[at].0.as_str(), key) {
            return Some(&options[at].1);
        }
        assert(options@.skip(at as int).skip(1) =~= options@.skip(at + 1));
        at = at + 1;
    }
    None
}

fn get_i32(options: &Vec<(String, OptionValue)>, key: &str) -> (value: Option<i32>)
    ensures
        value == int_option(options@, key@),
{
    match find_option(options, key) {
        Some(OptionValue::Int(value)) => Some(*value),
        _ => None,
    }
}

fn get_text<'a>(options: &'a Vec<(String, OptionValue)>, key: &str) -> (value: Option<&'a str>)
    ensures
        value is Some <==> text_option(options@, key@) is Some,
        value matches Some(text) ==> text_option(options@, key@) == Some(text@),
{
    match find_option(options, key) {
        Some(OptionValue::Text(value)) => Some(value.as_str()),
        _ => None,
    }
}

fn clamp(value: i32, low: i32, high: i32) -> (inside: i32)
    ensures
        inside == clamped(value, low, high),
{
    if value < low {
        low
    } else if value > high {
        high
    } else {
        value
    }
}

fn positive(value: Option<i32>, low: i32, high: i32) -> (inside: Option<i32>)
    ensures
        inside == positive_in(value, low, high),
{
    match value {
        Some(number) => if number > 0 {
            Some(clamp(number, low, high))
        } else {
            None
        },
        None => None,
    }
}

impl StreamSettings {
    /// The size that is captured: the requested one, or full HD.
    pub open spec fn captured_size(&self) -> (i32, i32) {
        match self.size {
            Some(size) => size,
            None => (1920, 1080),
        }
    }

    /// The values to build a pipeline from when there is no receiver to
    /// negotiate with (the HLS fallback), or before an ANSWER has arrived: the
    /// request combined with the constraints that hold by default.
    pub fn resolve_local<C: Default, R, F: Fn(
        Option<(i32, i32)>,
        Option<i32>,
        Option<i32>,
        Option<i32>,
        (i32, i32),
        &C,
    ) -> R>(&self, combine: &F) -> (resolved: R)
        requires
            forall|constraints: &C|
                #[trigger] call_requires(
                    *combine,
                    (
                        self.size,
                        self.fps,
                        self.bitrate_kbps,
                        self.audio_bitrate_kbps,
                        self.captured_size(),
                        constraints,
                    ),
                ),
        ensures
            exists|constraints: C|
                call_ensures(C::default, (), constraints) && #[trigger] call_ensures(
                    *combine,
                    (
                        self.size,
                        self.fps,
                        self.bitrate_kbps,
                        self.audio_bitrate_kbps,
                        self.captured_size(),
                        &constraints,
                    ),
                    resolved,
                ),
    {
        let constraints = C::default();
        self.resolve(&constraints, combine)
    }

    /// Combines this request with `constraints`, as `combine` does it; automatic
    /// fields are filled in from the constraints. `size` doubles as the captured
    /// size when set.
    pub fn resolve<C, R, F: Fn(
        Option<(i32, i32)>,
        Option<i32>,
        Option<i32>,
        Option<i32>,
        (i32, i32),
        &C,
    ) -> R>(&self, constraints: &C, combine: &F) -> (resolved: R)
        requires
            call_requires(
                *combine,
                (
                    self.size,
                    self.fps,
                    self.bitrate_kbps,
                    self.audio_bitrate_kbps,
                    self.captured_size(),
                    constraints,
                ),
            ),
        ensures
            call_ensures(
                *combine,
                (
                    self.size,
                    self.fps,
                    self.bitrate_kbps,
                    self.audio_bitrate_kbps,
                    self.captured_size(),
                    constraints,
                ),
                resolved,
            ),
    {
        let captured = match self.size {
            Some(size) => size,
            None => (1920, 1080),
        };
        combine(
            self.size,
            self.fps,
            self.bitrate_kbps,
            self.audio_bitrate_kbps,
            captured,
            constraints,
        )
    }

    /// Reads the settings out of the options of a cast. Values that make no
    /// sense are moved into range, and what is missing or of the wrong type is
    /// automatic.
    pub fn from_options(options: &Vec<(String, OptionValue)>) -> (settings: StreamSettings)
        ensures
            settings == settings_from(options@),
    {
        let mut settings = StreamSettings::default();
        let width = get_i32(options, "width");
        let height = get_i32(options, "height");
        if let (Some(w), Some(h)) = (width, height) {
            if w > 0 && h > 0 {
                // Capped at 8K so a bad request can't ask for an absurd frame size.
                settings.size = Some((clamp(w, 1, 7680), clamp(h, 1, 4320)));
            }
        }
        settings.fps = positive(get_i32(options, "fps"), 1, 60);
        settings.bitrate_kbps = positive(get_i32(options, "bitrate-kbps"), 100, 60_000);
        settings.audio_bitrate_kbps = positive(get_i32(options, "audio-bitrate-kbps"), 16, 512);
        if let Some(encoder) = get_text(options, "video-encoder") {
            settings.encoding.encoder = EncoderPolicy::parse(encoder);
        }
        if let Some(format) = get_text(options, "video-format") {
            settings.encoding.format = FormatPolicy::parse(format);
        }
        if let Some(codec) = get_text(options, "video-codec") {
            settings.video_codec = VideoCodec::parse(codec);
        }
        settings
    }
}

/// How a running encoder takes a new bitrate.
#[derive(Clone, Copy, PartialEq, Eq, Structural, Debug)]
pub enum BitrateSetting {
    /// The signed `target-bitrate` property, in bit/s.
    TargetBitrateBps(i32),
    /// The unsigned `target-bitrate` property, in kbit/s.
    TargetBitrateKbps(u32),
    /// The `bitrate` property, in kbit/s.
    BitrateKbps(u32),
    /// The `video_bitrate` field of `extra-controls`, in bit/s. The other
    /// fields are kept, so the GOP size set at launch stays.
    VideoBitrateControl(i32),
    /// The element is unknown and left alone.
    LeaveAlone,
}

/// A bitrate as a signed number, cut off at the largest one.
pub open spec fn signed_bps(bits_per_second: u32) -> i32 {
    if bits_per_second <= i32::MAX {
        bits_per_second as i32
    } else {
        i32::MAX
    }
}

/// How an encoder takes a bitrate.
pub open spec fn bitrate_setting(factory: Seq<char>, bits_per_second: u32) -> BitrateSetting {
    let kbps = kilobits(bits_per_second) as u32;
    if factory == "vp8enc"@ || factory == "vp9enc"@ {
        BitrateSetting::TargetBitrateBps(signed_bps(bits_per_second))
    } else if factory == "svtav1enc"@ || factory == "av1enc"@ {
        BitrateSetting::TargetBitrateKbps(kbps)
    } else if factory == "x264enc"@ {
        BitrateSetting::BitrateKbps(kbps)
    } else if begins(factory, "v4l2"@) {
        BitrateSetting::VideoBitrateControl(signed_bps(bits_per_second))
    } else if begins(factory, "va"@) || begins(factory, "nv"@) {
        BitrateSetting::BitrateKbps(kbps)
    } else {
        BitrateSetting::LeaveAlone
    }
}

/// How to apply a new target bitrate to a running encoder. The property and its
/// unit differ per element, so this maps by factory name; anything unknown is
/// left alone rather than guessed at.
pub fn set_encoder_bitrate(factory: &str, bits_per_second: u32) -> (setting: BitrateSetting)
    ensures
        setting == bitrate_setting(factory@, bits_per_second),
{
    let kbps: u32 = if bits_per_second >= 1000 {
        bits_per_second / 1000
    } else {
        1
    };
    let signed: i32 = if bits_per_second <= i32::MAX as u32 {
        bits_per_second as i32
    } else {
        i32::MAX
    };
    if same(factory, "vp8enc") || same(factory, "vp9enc") {
        // The VPX base takes bit/s.
        BitrateSetting::TargetBitrateBps(signed)
    } else if same(factory, "svtav1enc") || same(factory, "av1enc") {
        BitrateSetting::TargetBitrateKbps(kbps)
    } else if same(factory, "x264enc") {
        BitrateSetting::BitrateKbps(kbps)
    } else if starts_with(factory, "v4l2") {
        // A V4L2 encoder has no bitrate property; the control carries bit/s.
        BitrateSetting::VideoBitrateControl(signed)
    } else if starts_with(factory, "va") || starts_with(factory, "nv") {
        BitrateSetting::BitrateKbps(kbps)
    } else {
        BitrateSetting::LeaveAlone
    }
}

/// An element of a running pipeline.
pub struct PipelineElement {
    /// The factory it was made by; empty when it has none.
    pub factory: String,
    /// The media type of its caps, when it has caps with a first structure.
    pub media_type: Option<String>,
}

impl PipelineElement {
    /// Whether this is the filter that fixes the size of the raw video.
    pub open spec fn sets_capture_size(&self) -> bool {
        self.factory@ == "capsfilter"@ && self.media_type is Some && self.media_type->Some_0@
            == "video/x-raw"@
    }
}

/// Whether none of the first `upto` elements fixes the size of the raw video.
pub open spec fn none_sets_capture_size(elements: Seq<PipelineElement>, upto: int) -> bool {
    forall|i: int| 0 <= i < upto ==> !(#[trigger] elements[i]).sets_capture_size()
}

/// Which of a running pipeline's elements is to take a new capture size: the
/// first filter for raw video. The caps between videoscale and the encoder come
/// from the launch string, so the filter is unnamed; it is found by its factory.
pub fn set_capture_size(elements: &Vec<PipelineElement>) -> (filter: Option<usize>)
    ensures
        match filter {
            Some(at) => {
                &&& at < elements@.len()
                &&& elements@[at as int].sets_capture_size()
                &&& forall|i: int|
                    0 <= i < at ==> !(#[trigger] elements@[i]).sets_capture_size()
            },
            None => forall|i: int|
                0 <= i < elements@.len() ==> !(#[trigger] elements@[i]).sets_capture_size(),
        },
        match filter {
            Some(at) => none_sets_capture_size(elements@, at as int),
            None => none_sets_capture_size(elements@, elements@.len() as int),
        },
{
    let mut at: usize = 0;
    while at < elements.len()
        invariant
            at <= elements@.len(),
            forall|i: int| 0 <= i < at ==> !(#[trigger] elements@[i]).sets_capture_size(),
        decreases elements@.len() - at,
    {
        let element = &elements[at];
        if same(element.factory.as_str(), "capsfilter") {
            if let Some(media_type) = &element.media_type {
                if same(media_type.as_str(), "video/x-raw") {
                    return Some(at);
                }
            }
        }
        at = at + 1;
    }
    None
}

/// AAC encoders in order of preference; which ones exist depends on the
/// installed `GStreamer` plugin packages.
pub open spec fn aac_encoder_names() -> Seq<Seq<char>> {
    seq!["fdkaacenc"@, "avenc_aac"@, "voaacenc"@, "faac"@]
}

/// The first of some elements that is installed.
pub open spec fn first_installed(names: Seq<Seq<char>>, registry: &Registry) -> Option<Seq<char>>
    decreases names.len(),
{
    if names.len() == 0 {
        None
    } else if registry.has(names[0]) {
        Some(names[0])
    } else {
        first_installed(names.skip(1), registry)
    }
}

/// Returns the first AAC encoder element available in the registry.
pub fn find_aac_encoder(registry: &Registry) -> (encoder: Option<&'static str>)
    ensures
        encoder is Some <==> first_installed(aac_encoder_names(), registry) is Some,
        encoder matches Some(name) ==> first_installed(aac_encoder_names(), registry) == Some(
            name@,
        ),
{
    let names: Vec<&'static str> = vec!["fdkaacenc", "avenc_aac", "voaacenc", "faac"];
    assert(texts(names@) =~= aac_encoder_names());
    let mut at: usize = 0;
    assert(texts(names@).skip(0) =~= texts(names@));
    while at < names.len()
        invariant
            at <= names@.len(),
            texts(names@) == aac_encoder_names(),
            first_installed(texts(names@).skip(at as int), registry) == first_installed(
                texts(names@),
                registry,
            ),
        decreases names@.len() - at,
    {
        assert(texts(names@).skip(at as int)[0] == names@[at as int]@);
        if registry.installed(names[at]) {
            return Some(names[at]);
        }
        assert(texts(names@).skip(at as int).skip(1) =~= texts(names@).skip(at + 1));
        at = at + 1;
    }
    None
}

/// The launch fragment of an H.264 encoder on the HLS path.
pub open spec fn h264_fragment(factory: Seq<char>, bitrate_kbps: i32, key_int: i32) -> Seq<char> {
    let kbps = signed_decimal(bitrate_kbps as int);
    let keys = signed_decimal(key_int as int);
    if factory == "x264enc"@ {
        "x264enc name=venc tune=zerolatency speed-preset=veryfast bitrate="@ + kbps
            + " key-int-max="@ + keys + " bframes=0"@
    } else if begins(factory, "nv"@) {
        factory + " name=venc bitrate="@ + kbps + " rc-mode=cbr gop-size="@ + keys + " bframes=0"@
    } else if begins(factory, "v4l2"@) {
        factory + " name=venc extra-controls=\"controls,video_bitrate="@ + signed_decimal(
            bitrate_kbps * 1000,
        ) + ",video_gop_size="@ + keys + "\""@
    } else {
        factory + " name=venc bitrate="@ + kbps + " rate-control=cbr key-int-max="@ + keys
    }
}

fn h264_launch_for(factory: &str, bitrate_kbps: i32, key_int: i32) -> (fragment: String)
    ensures
        fragment@ == h264_fragment(factory@, bitrate_kbps, key_int),
{
    if same(factory, "x264enc") {
        let mut fragment =
            "x264enc name=venc tune=zerolatency speed-preset=veryfast bitrate=".to_owned();
        push_signed(&mut fragment, bitrate_kbps as i64);
        fragment.append(" key-int-max=");
        push_signed(&mut fragment, key_int as i64);
        fragment.append(" bframes=0");
        return fragment;
    }
    let mut fragment = factory.to_owned();
    if starts_with(factory, "nv") {
        fragment.append(" name=venc bitrate=");
        push_signed(&mut fragment, bitrate_kbps as i64);
        fragment.append(" rc-mode=cbr gop-size=");
        push_signed(&mut fragment, key_int as i64);
        fragment.append(" bframes=0");
    } else if starts_with(factory, "v4l2") {
        // V4L2 takes bit/s through controls rather than properties.
        fragment.append(" name=venc extra-controls=\"controls,video_bitrate=");
        push_signed(&mut fragment, bitrate_kbps as i64 * 1000);
        fragment.append(",video_gop_size=");
        push_signed(&mut fragment, key_int as i64);
        fragment.append("\"");
    } else {
        fragment.append(" name=venc bitrate=");
        push_signed(&mut fragment, bitrate_kbps as i64);
        fragment.append(" rate-control=cbr key-int-max=");
        push_signed(&mut fragment, key_int as i64);
    }
    fragment
}

/// The H.264 encoders, hardware first.
pub open spec fn h264_encoders() -> Seq<Seq<char>> {
    factory_names(VideoCodec::H264)
}

/// Whether H.264 encoder `i` was usable, as far as trying it out can tell.
pub open spec fn h264_probed<F: Fn(&str, Probe) -> bool>(
    try_out: F,
    bitrate_kbps: i32,
    key_int: i32,
    i: int,
    usable: bool,
) -> bool {
    let factory = h264_encoders()[i];
    probed(try_out, factory, h264_fragment(factory, bitrate_kbps, key_int), usable)
}

/// Whether the first `upto` H.264 encoders are all ruled out.
pub open spec fn h264_ruled_out<F: Fn(&str, Probe) -> bool>(
    try_out: F,
    bitrate_kbps: i32,
    key_int: i32,
    policy: EncodingPolicy,
    registry: &Registry,
    upto: int,
) -> bool {
    forall|i: int|
        0 <= i < upto ==> is_allowed(#[trigger] h264_encoders()[i], policy, registry)
            ==> h264_probed(try_out, bitrate_kbps, key_int, i, false)
}

/// Whether `fragment` is what selecting an H.264 encoder comes to.
pub open spec fn h264_picked<F: Fn(&str, Probe) -> bool>(
    try_out: F,
    bitrate_kbps: i32,
    key_int: i32,
    policy: EncodingPolicy,
    registry: &Registry,
    fragment: Option<Seq<char>>,
) -> bool {
    match fragment {
        Some(text) => exists|i: int|
            {
                &&& 0 <= i < h264_encoders().len()
                &&& is_allowed(#[trigger] h264_encoders()[i], policy, registry)
                &&& h264_probed(try_out, bitrate_kbps, key_int, i, true)
                &&& h264_ruled_out(try_out, bitrate_kbps, key_int, policy, registry, i)
                &&& text == h264_fragment(h264_encoders()[i], bitrate_kbps, key_int)
            },
        None => h264_ruled_out(
            try_out,
            bitrate_kbps,
            key_int,
            policy,
            registry,
            h264_encoders().len() as int,
        ),
    }
}

/// The H.264 encoder for the HLS path, hardware first (VA-API, then NVENC, then
/// V4L2), then software `x264enc`. Each candidate is tried out, so a hardware
/// encoder that is present but mis-parametrised falls back to the next one.
/// `None` when the user's encoder or pixel-format choice rules every one of
/// them out.
pub fn find_h264_encoder<F: Fn(&str, Probe) -> bool>(
    bitrate_kbps: i32,
    key_int: i32,
    policy: EncodingPolicy,
    registry: &Registry,
    try_out: &F,
) -> (fragment: Option<String>)
    requires
        forall|text: &str, probe: Probe| #[trigger] call_requires(*try_out, (text, probe)),
    ensures
        h264_picked(
            *try_out,
            bitrate_kbps,
            key_int,
            policy,
            registry,
            text_in(fragment),
        ),
{
    let names = factories(VideoCodec::H264);
    let mut at: usize = 0;
    while at < names.len()
        invariant
            at <= names@.len(),
            texts(names@) == h264_encoders(),
            forall|text: &str, probe: Probe| #[trigger] call_requires(*try_out, (text, probe)),
            h264_ruled_out(*try_out, bitrate_kbps, key_int, policy, registry, at as int),
        decreases names@.len() - at,
    {
        let factory = names[at];
        assert(texts(names@)[at as int] == factory@);
        if allowed(factory, policy, registry) {
            let fragment = h264_launch_for(factory, bitrate_kbps, key_int);
            // Hardware candidates have to open their device, not just parse: the
            // HLS path would otherwise fail a whole cast on a phantom encoder.
            let usable = fragment_usable(factory, fragment.as_str(), try_out);
            assert(h264_probed(*try_out, bitrate_kbps, key_int, at as int, usable));
            if usable {
                assert(is_allowed(h264_encoders()[at as int], policy, registry));
                return Some(fragment);
            }
        }
        at = at + 1;
    }
    None
}

/// The caps that scale the captured video.
pub open spec fn size_caps(size: Option<(i32, i32)>) -> Seq<char> {
    match size {
        Some((w, h)) => ",width="@ + signed_decimal(w as int) + ",height="@ + signed_decimal(
            h as int,
        ) + ",pixel-aspect-ratio=1/1"@,
        None => ""@,
    }
}

/// The video branch of the HLS pipeline.
pub open spec fn hls_video_branch(
    fd: i32,
    node_id: u32,
    settings: StreamSettings,
    fps: i32,
    video_encoder: Seq<char>,
) -> Seq<char> {
    "pipewiresrc fd="@ + signed_decimal(fd as int) + " path="@ + decimal(node_id as nat)
        + " do-timestamp=true keepalive-time=1000 resend-last=true ! queue leaky=downstream max-size-buffers=3 max-size-bytes=0 max-size-time=0 ! videoconvert ! videoscale ! videorate ! video/x-raw,format="@
        + caps_text(settings.encoding.format) + ",framerate="@ + signed_decimal(fps as int) + "/1"@
        + size_caps(settings.size) + " ! "@ + video_encoder + " ! h264parse ! queue ! hls.video "@
}

/// The sink of the HLS pipeline.
pub open spec fn hls_sink(hls_dir: Seq<char>) -> Seq<char> {
    "hlssink2 name=hls target-duration=1 playlist-length=3 max-files=6 playlist-location="@
        + hls_dir + "/"@ + PLAYLIST_NAME@ + " location="@ + hls_dir + "/segment%05d.ts"@
}

/// The audio branch of the HLS pipeline.
pub open spec fn hls_audio_branch(monitor: Seq<char>, encoder: Seq<char>) -> Seq<char> {
    " pulsesrc device="@ + monitor
        + " provide-clock=false ! queue ! audioconvert ! audioresample ! "@ + encoder
        + " bitrate=128000 ! aacparse ! queue ! hls.audio"@
}

/// The description of an HLS pipeline.
pub open spec fn hls_description(
    video: Option<(i32, u32)>,
    settings: StreamSettings,
    fps: i32,
    hls_dir: Seq<char>,
    audio: Option<(Seq<char>, Seq<char>)>,
    video_encoder: Seq<char>,
) -> Seq<char> {
    let video_branch = match video {
        Some((fd, node_id)) => hls_video_branch(fd, node_id, settings, fps, video_encoder),
        None => ""@,
    };
    let audio_branch = match audio {
        Some((monitor, encoder)) => hls_audio_branch(monitor, encoder),
        None => ""@,
    };
    video_branch + hls_sink(hls_dir) + audio_branch
}

/// The contents of an optional pair of texts.
pub open spec fn pair_in(pair: Option<(&str, &str)>) -> Option<(Seq<char>, Seq<char>)> {
    match pair {
        Some((a, b)) => Some((a@, b@)),
        None => None,
    }
}

fn size_caps_text(size: Option<(i32, i32)>) -> (caps: String)
    ensures
        caps@ == size_caps(size),
{
    match size {
        Some((w, h)) => {
            let mut caps = ",width=".to_owned();
            push_signed(&mut caps, w as i64);
            caps.append(",height=");
            push_signed(&mut caps, h as i64);
            caps.append(",pixel-aspect-ratio=1/1");
            caps
        },
        None => "".to_owned(),
    }
}

/// Builds the gst-launch description writing a live HLS stream into
/// `hls_dir`: H.264 from the captured `PipeWire` node when `video` carries
/// the (fd, node id) pair, plus AAC system audio when `audio` names the pulse
/// monitor device and the AAC encoder element. Audio-only casts pass
/// `video: None` and produce audio-only TS segments. `fps` is the frame rate
/// that the settings resolve to.
pub fn launch_description(
    video: Option<(i32, u32)>,
    settings: &StreamSettings,
    fps: i32,
    hls_dir: &str,
    audio: Option<(&str, &str)>,
    video_encoder: &str,
) -> (description: String)
    ensures
        description@ == hls_description(
            video,
            *settings,
            fps,
            hls_dir@,
            pair_in(audio),
            video_encoder@,
        ),
{
    let mut video_branch = "".to_owned();
    if let Some((fd, node_id)) = video {
        // The source queue is small and leaky: when the encoder can't keep up
        // with raw frames the pipeline drops the oldest instead of buffering
        // them, so the stream falls in quality rather than further behind live.
        // NV12 for the VA-API encoders, I420 for x264enc; unconstrained,
        // videoconvert picks Y444 and x264enc emits 4:4:4 no receiver decodes.
        video_branch = "pipewiresrc fd=".to_owned();
        push_signed(&mut video_branch, fd as i64);
        video_branch.append(" path=");
        push_decimal(&mut video_branch, node_id as u64);
        video_branch.append(
            " do-timestamp=true keepalive-time=1000 resend-last=true ! queue leaky=downstream max-size-buffers=3 max-size-bytes=0 max-size-time=0 ! videoconvert ! videoscale ! videorate ! video/x-raw,format=",
        );
        video_branch.append(settings.encoding.format.caps_format());
        video_branch.append(",framerate=");
        push_signed(&mut video_branch, fps as i64);
        video_branch.append("/1");
        video_branch.append(size_caps_text(settings.size).as_str());
        video_branch.append(" ! ");
        video_branch.append(video_encoder);
        video_branch.append(" ! h264parse ! queue ! hls.video ");
    }
    // Short segments keep both startup and live lag low: the player is
    // roughly 3 target-durations behind the encoder. Keyframe every segment
    // so segments are independently decodable.
    let mut sink =
        "hlssink2 name=hls target-duration=1 playlist-length=3 max-files=6 playlist-location=".to_owned();
    sink.append(hls_dir);
    sink.append("/");
    sink.append(PLAYLIST_NAME);
    sink.append(" location=");
    sink.append(hls_dir);
    sink.append("/segment%05d.ts");
    let mut audio_branch = "".to_owned();
    if let Some((monitor, encoder)) = audio {
        audio_branch = " pulsesrc device=".to_owned();
        audio_branch.append(monitor);
        audio_branch.append(" provide-clock=false ! queue ! audioconvert ! audioresample ! ");
        audio_branch.append(encoder);
        audio_branch.append(" bitrate=128000 ! aacparse ! queue ! hls.audio");
    }
    let mut description = video_branch;
    description.append(sink.as_str());
    description.append(audio_branch.as_str());
    description
}

/// The description of a progressive audio pipeline.
pub open spec fn audio_stream_text(monitor: Seq<char>, encode: Seq<char>) -> Seq<char> {
    "pulsesrc device="@ + monitor
        + " provide-clock=false ! queue ! audioconvert ! audioresample ! audio/x-raw,rate=44100,channels=2 ! "@
        + encode + " ! appsink name=asink sync=false max-buffers=64 drop=false"@
}

/// What encodes a progressive audio stream, and its content type: MP3 where
/// that can be had, AAC otherwise.
pub open spec fn audio_encoding(registry: &Registry) -> Option<(Seq<char>, Seq<char>)> {
    if registry.has("lamemp3enc"@) {
        Some(("lamemp3enc target=bitrate bitrate=128 cbr=true"@, "audio/mpeg"@))
    } else {
        match first_installed(aac_encoder_names(), registry) {
            Some(aac) => Some(
                (
                    aac
                        + " bitrate=128000 ! aacparse ! audio/mpeg,mpegversion=4,stream-format=adts"@,
                    "audio/aac"@,
                ),
            ),
            None => None,
        }
    }
}

/// The description of a progressive (non-HLS) audio pipeline for audio-only
/// receivers, encoding the system audio monitor onto an appsink named `asink`,
/// and the HTTP content type to advertise. Prefers MP3 (most widely supported on
/// cheap Cast receivers), falling back to ADTS AAC. The error is for the user.
pub fn build_audio_stream(monitor: &str, registry: &Registry) -> (stream: Result<
    (String, &'static str),
    String,
>)
    ensures
        match audio_encoding(registry) {
            Some((encode, content_type)) => {
                &&& stream matches Ok((description, advertised))
                &&& description@ == audio_stream_text(monitor@, encode)
                &&& advertised@ == content_type
            },
            None => {
                &&& stream matches Err(message)
                &&& message@
                    == "no MP3 or AAC encoder found (install gst-plugins-ugly, fdk-aac/gst-plugins-bad, or gst-libav)"@
            },
        },
{
    let (encode, content_type) = if registry.installed("lamemp3enc") {
        ("lamemp3enc target=bitrate bitrate=128 cbr=true".to_owned(), "audio/mpeg")
    } else {
        match find_aac_encoder(registry) {
            Some(aac) => {
                let mut encode = aac.to_owned();
                encode.append(
                    " bitrate=128000 ! aacparse ! audio/mpeg,mpegversion=4,stream-format=adts",
                );
                (encode, "audio/aac")
            },
            None => {
                return Err(
                    "no MP3 or AAC encoder found (install gst-plugins-ugly, fdk-aac/gst-plugins-bad, or gst-libav)".to_owned(),
                );
            },
        }
    };
    let mut description = "pulsesrc device=".to_owned();
    description.append(monitor);
    description.append(
        " provide-clock=false ! queue ! audioconvert ! audioresample ! audio/x-raw,rate=44100,channels=2 ! ",
    );
    description.append(encode.as_str());
    description.append(" ! appsink name=asink sync=false max-buffers=64 drop=false");
    Ok((description, content_type))
}

/// The HLS pipeline to build.
pub struct HlsPlan {
    pub description: String,
    /// System audio was asked for, but no AAC encoder is installed.
    pub audio_missing: bool,
}

/// The audio branch of an HLS cast: the monitor and the encoder, when there is
/// a monitor and an AAC encoder for it.
pub open spec fn hls_audio(monitor: Option<Seq<char>>, registry: &Registry) -> Option<
    (Seq<char>, Seq<char>),
> {
    match (monitor, first_installed(aac_encoder_names(), registry)) {
        (Some(monitor), Some(encoder)) => Some((monitor, encoder)),
        _ => None,
    }
}

/// The frames between the key frames of an HLS stream: one second's.
pub open spec fn hls_key_interval(fps: i32) -> i32 {
    if fps > 1 {
        fps
    } else {
        1
    }
}

/// The contents of an optional text.
pub open spec fn str_in(text: Option<&str>) -> Option<Seq<char>> {
    match text {
        Some(text) => Some(text@),
        None => None,
    }
}

/// Plans the HLS pipeline of a cast. Video casts degrade to video-only when AAC
/// encoding or the audio monitor is unavailable. A forced encoder or pixel
/// format can rule out every candidate; that fails with the reason rather than
/// quietly ignoring the user's choice.
pub fn build<F: Fn(&str, Probe) -> bool>(
    video: Option<(i32, u32)>,
    settings: &StreamSettings,
    resolved: &Resolved,
    hls_dir: &str,
    audio_monitor: Option<&str>,
    registry: &Registry,
    try_out: &F,
) -> (plan: Result<HlsPlan, String>)
    requires
        forall|text: &str, probe: Probe| #[trigger] call_requires(*try_out, (text, probe)),
    ensures
        match plan {
            Ok(plan) => {
                &&& plan.audio_missing == (audio_monitor is Some && first_installed(
                    aac_encoder_names(),
                    registry,
                ) is None)
                &&& exists|encoder: Seq<char>|
                    {
                        &&& video is None ==> encoder == ""@
                        &&& video is Some ==> h264_picked(
                            *try_out,
                            resolved.video_bitrate_kbps,
                            hls_key_interval(resolved.fps),
                            settings.encoding,
                            registry,
                            Some(encoder),
                        )
                        &&& plan.description@ == #[trigger] hls_description(
                            video,
                            *settings,
                            resolved.fps,
                            hls_dir@,
                            hls_audio(str_in(audio_monitor), registry),
                            encoder,
                        )
                    }
            },
            Err(message) => {
                &&& video is Some
                &&& h264_picked(
                    *try_out,
                    resolved.video_bitrate_kbps,
                    hls_key_interval(resolved.fps),
                    settings.encoding,
                    registry,
                    None,
                )
                &&& message@ == failure_text(settings.encoding)
            },
        },
{
    let found = find_aac_encoder(registry);
    let audio: Option<(&str, &str)> = match (audio_monitor, found) {
        (Some(monitor), Some(encoder)) => Some((monitor, encoder)),
        _ => None,
    };
    let audio_missing = audio_monitor.is_some() && found.is_none();
    // Keyframe every segment (target-duration = 1s) so segments decode alone.
    let key_int: i32 = if resolved.fps > 1 {
        resolved.fps
    } else {
        1
    };
    let mut video_encoder = "".to_owned();
    if video.is_some() {
        match find_h264_encoder(
            resolved.video_bitrate_kbps,
            key_int,
            settings.encoding,
            registry,
            try_out,
        ) {
            Some(fragment) => {
                video_encoder = fragment;
            },
            None => {
                return Err(policy_failure_message(settings.encoding));
            },
        }
    }
    let description = launch_description(
        video,
        settings,
        resolved.fps,
        hls_dir,
        audio,
        video_encoder.as_str(),
    );
    Ok(HlsPlan { description, audio_missing })
}

/// The monitor source of a sink.
pub open spec fn monitor_of(success: bool, output: Option<Seq<char>>) -> Option<Seq<char>> {
    match output {
        Some(sink) => if success && trimmed(sink).len() > 0 {
            Some(trimmed(sink) + ".monitor"@)
        } else {
            None
        },
        None => None,
    }
}

/// The PulseAudio/PipeWire monitor source of the default sink, used to capture
/// what the system is playing, from how the query for that sink ended and the
/// text it printed. `None` (video-only cast) when it cannot be determined.
pub fn default_audio_monitor(success: bool, output: Option<&str>) -> (monitor: Option<String>)
    ensures
        text_in(monitor) == monitor_of(success, str_in(output)),
{
    if !success {
        return None;
    }
    match output {
        Some(text) => {
            let sink = trim(text);
            if sink.is_empty() {
                return None;
            }
            let mut monitor = sink.to_owned();
            monitor.append(".monitor");
            Some(monitor)
        },
        None => None,
    }
}

/// Whatever the options hold, what comes out of them is usable: sizes up to 8K,
/// frame rates and bitrates in their ranges.
pub proof fn law_settings_are_in_range(options: Seq<(String, OptionValue)>)
    ensures
        ({
            let settings = settings_from(options);
            &&& settings.size matches Some((w, h)) ==> 1 <= w <= 7680 && 1 <= h <= 4320
            &&& settings.fps matches Some(fps) ==> 1 <= fps <= 60
            &&& settings.bitrate_kbps matches Some(kbps) ==> 100 <= kbps <= 60_000
            &&& settings.audio_bitrate_kbps matches Some(kbps) ==> 16 <= kbps <= 512
        }),
{
}

/// Nothing requested means automatic everywhere.
pub proof fn law_no_options_mean_automatic()
    ensures
        settings_from(Seq::empty()) == automatic(),
{
}

/// Options that are not the program's own, or that repeat a key, change nothing.
pub proof fn law_unknown_options_are_ignored(
    options: Seq<(String, OptionValue)>,
    key: String,
    value: OptionValue,
    name: Seq<char>,
)
    requires
        key@ != name || option_value(options, name) is Some,
    ensures
        option_value(options.push((key, value)), name) == option_value(options, name),
    decreases options.len(),
{
    reveal_with_fuel(option_value, 2);
    let more = options.push((key, value));
    if options.len() > 0 {
        assert(more[0] == options[0]);
        assert(more.skip(1) =~= options.skip(1).push((key, value)));
        if options[0].0@ != name {
            law_unknown_options_are_ignored(options.skip(1), key, value, name);
        }
    } else {
        assert(more.skip(1) =~= Seq::empty());
    }
}

/// The launch fragment of every H.264 encoder starts with its element, named
/// `venc`.
pub proof fn law_h264_fragments_name_the_encoder_venc(
    factory: Seq<char>,
    bitrate_kbps: i32,
    key_int: i32,
)
    ensures
        begins(h264_fragment(factory, bitrate_kbps, key_int), factory + " name=venc"@),
{
    reveal_strlit(" name=venc");
    reveal_strlit("x264enc");
    reveal_strlit("x264enc name=venc tune=zerolatency speed-preset=veryfast bitrate=");
    reveal_strlit(" name=venc bitrate=");
    reveal_strlit(" name=venc extra-controls=\"controls,video_bitrate=");
    let name = factory + " name=venc"@;
    let fragment = h264_fragment(factory, bitrate_kbps, key_int);
    assert(fragment.take(name.len() as int) =~= name);
}

/// A cast with audio only has no video in its pipeline, and one without audio
/// has no audio in it: what is left is the sink and the other branch.
pub proof fn law_branches_follow_the_inputs(
    settings: StreamSettings,
    fps: i32,
    hls_dir: Seq<char>,
    audio: Option<(Seq<char>, Seq<char>)>,
    video: Option<(i32, u32)>,
    encoder: Seq<char>,
)
    ensures
        begins(
            hls_description(None, settings, fps, hls_dir, audio, encoder),
            hls_sink(hls_dir),
        ),
        video matches Some((fd, node)) ==> hls_description(
            video,
            settings,
            fps,
            hls_dir,
            None,
            encoder,
        ) == hls_video_branch(fd, node, settings, fps, encoder) + hls_sink(hls_dir),
{
    reveal_strlit("");
    assert(""@ =~= Seq::<char>::empty());
    let sink = hls_sink(hls_dir);
    let description = hls_description(None, settings, fps, hls_dir, audio, encoder);
    assert(description.take(sink.len() as int) =~= sink);
    if let Some((fd, node)) = video {
        assert(hls_description(video, settings, fps, hls_dir, None, encoder)
            =~= hls_video_branch(fd, node, settings, fps, encoder) + sink);
    }
}

/// Whether the option at a place is the first under a key.
pub open spec fn is_first_under(
    options: Seq<(String, OptionValue)>,
    key: Seq<char>,
    at: int,
) -> bool {
    &&& 0 <= at < options.len()
    &&& options[at].0@ == key
    &&& forall|i: int| 0 <= i < at ==> (#[trigger] options[i]).0@ != key
}

/// Whether a number is asked for under a key.
pub open spec fn asks_number(options: Seq<(String, OptionValue)>, key: Seq<char>) -> bool {
    exists|at: int|
        #[trigger] is_first_under(options, key, at) && options[at].1 is Int
}

/// Whether a text is asked for under a key.
pub open spec fn asks_text(options: Seq<(String, OptionValue)>, key: Seq<char>) -> bool {
    exists|at: int|
        #[trigger] is_first_under(options, key, at) && options[at].1 is Text
}

/// Whether `got` is what a number asked for comes to: nothing for one that is
/// not positive, and otherwise the number itself, or the end of the range that
/// it lies beyond.
pub open spec fn is_kept_within(asked: int, low: int, high: int, got: Option<i32>) -> bool {
    match got {
        Some(value) => {
            &&& asked > 0
            &&& low <= value <= high
            &&& value == asked || (value == low && asked < low) || (value == high && asked > high)
        },
        None => asked <= 0,
    }
}

proof fn lemma_option_value(options: Seq<(String, OptionValue)>, key: Seq<char>)
    ensures
        match option_value(options, key) {
            Some(value) => exists|at: int|
                #[trigger] is_first_under(options, key, at) && options[at].1 == value,
            None => forall|at: int| !(#[trigger] is_first_under(options, key, at)),
        },
        forall|at: int| #[trigger]
            is_first_under(options, key, at) ==> option_value(options, key) == Some(
                options[at].1,
            ),
    decreases options.len(),
{
    if options.len() > 0 {
        let rest = options.skip(1);
        lemma_option_value(rest, key);
        if options[0].0@ == key {
            assert(is_first_under(options, key, 0));
            assert forall|at: int| #[trigger] is_first_under(options, key, at) implies at == 0 by {
                if at > 0 {
                    assert(options[0].0@ != key);
                }
            }
        } else {
            assert forall|at: int| #[trigger] is_first_under(rest, key, at) implies is_first_under(
                options,
                key,
                at + 1,
            ) && options[at + 1] == rest[at] by {
                assert forall|i: int| 0 <= i < at + 1 implies (#[trigger] options[i]).0@
                    != key by {
                    if i > 0 {
                        assert(rest[i - 1] == options[i]);
                    }
                }
            }
            assert forall|at: int| #[trigger] is_first_under(options, key, at) implies is_first_under(
                rest,
                key,
                at - 1,
            ) && options[at] == rest[at - 1] by {
                assert(at > 0);
                assert forall|i: int| 0 <= i < at - 1 implies (#[trigger] rest[i]).0@ != key by {
                    assert(rest[i] == options[i + 1]);
                }
            }
            if let Some(value) = option_value(rest, key) {
                let at = choose|at: int|
                    #[trigger] is_first_under(rest, key, at) && rest[at].1 == value;
                assert(is_first_under(options, key, at + 1));
            }
        }
    }
}

proof fn lemma_asks(options: Seq<(String, OptionValue)>, key: Seq<char>)
    ensures
        asks_number(options, key) <==> int_option(options, key) is Some,
        asks_text(options, key) <==> text_option(options, key) is Some,
        forall|at: int| #[trigger]
            is_first_under(options, key, at) ==> {
                &&& options[at].1 matches OptionValue::Int(number) ==> int_option(options, key)
                    == Some(number)
                &&& options[at].1 matches OptionValue::Text(text) ==> text_option(options, key)
                    == Some(text@)
            },
{
    lemma_option_value(options, key);
}

/// A number that is asked for is kept within what a stream can have: up to 60
/// frames a second, 100 to 60000 kilobits of video and 16 to 512 of audio a
/// second. Each goes by its own option alone.
pub proof fn law_numbers_asked_for_are_kept_within_limits(
    options: Vec<(String, OptionValue)>,
    settings: StreamSettings,
    at: int,
    asked: i32,
)
    requires
        call_ensures(StreamSettings::from_options, (&options,), settings),
        0 <= at < options@.len(),
        options@[at].1 == OptionValue::Int(asked),
    ensures
        is_first_under(options@, "fps"@, at) ==> is_kept_within(
            asked as int,
            1,
            60,
            settings.fps,
        ),
        is_first_under(options@, "bitrate-kbps"@, at) ==> is_kept_within(
            asked as int,
            100,
            60_000,
            settings.bitrate_kbps,
        ),
        is_first_under(options@, "audio-bitrate-kbps"@, at) ==> is_kept_within(
            asked as int,
            16,
            512,
            settings.audio_bitrate_kbps,
        ),
{
    lemma_asks(options@, "fps"@);
    lemma_asks(options@, "bitrate-kbps"@);
    lemma_asks(options@, "audio-bitrate-kbps"@);
}

/// A width and a height that are both positive are the size asked for, each cut
/// off at that of an 8K screen; with either missing or not positive no size is
/// asked for.
pub proof fn law_a_size_takes_a_width_and_a_height(
    options: Vec<(String, OptionValue)>,
    settings: StreamSettings,
    i: int,
    width: i32,
    j: int,
    height: i32,
)
    requires
        call_ensures(StreamSettings::from_options, (&options,), settings),
        is_first_under(options@, "width"@, i),
        options@[i].1 == OptionValue::Int(width),
        is_first_under(options@, "height"@, j),
        options@[j].1 == OptionValue::Int(height),
    ensures
        match settings.size {
            Some((w, h)) => is_kept_within(width as int, 1, 7680, Some(w)) && is_kept_within(
                height as int,
                1,
                4320,
                Some(h),
            ),
            None => width <= 0 || height <= 0,
        },
{
    lemma_asks(options@, "width"@);
    lemma_asks(options@, "height"@);
}

/// What is not asked for by a value of the right type is left automatic.
pub proof fn law_what_is_not_asked_for_is_automatic(
    options: Vec<(String, OptionValue)>,
    settings: StreamSettings,
)
    requires
        call_ensures(StreamSettings::from_options, (&options,), settings),
    ensures
        !asks_number(options@, "width"@) || !asks_number(options@, "height"@)
            ==> settings.size is None,
        !asks_number(options@, "fps"@) ==> settings.fps is None,
        !asks_number(options@, "bitrate-kbps"@) ==> settings.bitrate_kbps is None,
        !asks_number(options@, "audio-bitrate-kbps"@) ==> settings.audio_bitrate_kbps is None,
        !asks_text(options@, "video-codec"@) ==> settings.video_codec is None,
        !asks_text(options@, "video-encoder"@) ==> settings.encoding.encoder
            == EncoderPolicy::Auto,
        !asks_text(options@, "video-format"@) ==> settings.encoding.format == FormatPolicy::Auto,
{
    lemma_asks(options@, "width"@);
    lemma_asks(options@, "height"@);
    lemma_asks(options@, "fps"@);
    lemma_asks(options@, "bitrate-kbps"@);
    lemma_asks(options@, "audio-bitrate-kbps"@);
    lemma_asks(options@, "video-codec"@);
    lemma_asks(options@, "video-encoder"@);
    lemma_asks(options@, "video-format"@);
}

/// A codec, an encoder and a format that are asked for are those that their
/// names stand for, each under its own option.
pub proof fn law_names_asked_for_are_read(
    options: Vec<(String, OptionValue)>,
    settings: StreamSettings,
    at: int,
    name: &str,
    codec: Option<VideoCodec>,
    encoder: EncoderPolicy,
    format: FormatPolicy,
)
    requires
        call_ensures(StreamSettings::from_options, (&options,), settings),
        0 <= at < options@.len(),
        options@[at].1 matches OptionValue::Text(text) && text@ == name@,
        call_ensures(VideoCodec::parse, (name,), codec),
        call_ensures(EncoderPolicy::parse, (name,), encoder),
        call_ensures(FormatPolicy::parse, (name,), format),
    ensures
        is_first_under(options@, "video-codec"@, at) ==> settings.video_codec == codec,
        is_first_under(options@, "video-encoder"@, at) ==> settings.encoding.encoder == encoder,
        is_first_under(options@, "video-format"@, at) ==> settings.encoding.format == format,
{
    lemma_asks(options@, "video-codec"@);
    lemma_asks(options@, "video-encoder"@);
    lemma_asks(options@, "video-format"@);
}

/// A request is combined with the constraints as it stands, field by field, and
/// with the size that is captured: the one asked for, or full HD.
pub proof fn law_requests_are_combined_as_they_stand<
    C,
    R,
    F: Fn(Option<(i32, i32)>, Option<i32>, Option<i32>, Option<i32>, (i32, i32), &C) -> R,
>(settings: StreamSettings, constraints: C, combine: F, captured: (i32, i32), resolved: R)
    requires
        captured == match settings.size {
            Some(size) => size,
            None => (1920i32, 1080i32),
        },
        call_ensures(
            StreamSettings::resolve::<C, R, F>,
            (&settings, &constraints, &combine),
            resolved,
        ),
    ensures
        call_ensures(
            combine,
            (
                settings.size,
                settings.fps,
                settings.bitrate_kbps,
                settings.audio_bitrate_kbps,
                captured,
                &constraints,
            ),
            resolved,
        ),
{
}

/// Without a receiver to ask, the constraints are those that hold by default.
pub proof fn law_without_a_receiver_defaults_hold<
    C: Default,
    R,
    F: Fn(Option<(i32, i32)>, Option<i32>, Option<i32>, Option<i32>, (i32, i32), &C) -> R,
>(settings: StreamSettings, combine: F, captured: (i32, i32), resolved: R)
    requires
        captured == match settings.size {
            Some(size) => size,
            None => (1920i32, 1080i32),
        },
        call_ensures(
            StreamSettings::resolve_local::<C, R, F>,
            (&settings, &combine),
            resolved,
        ),
    ensures
        exists|constraints: C|
            call_ensures(C::default, (), constraints) && #[trigger] call_ensures(
                combine,
                (
                    settings.size,
                    settings.fps,
                    settings.bitrate_kbps,
                    settings.audio_bitrate_kbps,
                    captured,
                    &constraints,
                ),
                resolved,
            ),
{
}

/// The capture size is set on the first filter for raw video, and on no other
/// element; without such a filter it is set nowhere.
pub proof fn law_the_first_raw_video_filter_is_resized(
    elements: Vec<PipelineElement>,
    filter: Option<usize>,
    i: int,
)
    requires
        call_ensures(set_capture_size, (&elements,), filter),
        0 <= i < elements@.len(),
        elements@[i].factory@ == "capsfilter"@,
        elements@[i].media_type matches Some(media) && media@ == "video/x-raw"@,
    ensures
        filter is Some,
        filter matches Some(at) ==> at <= i,
        filter matches Some(at) ==> elements@[at as int].factory@ == "capsfilter"@,
        filter matches Some(at) ==> (elements@[at as int].media_type matches Some(media)
            && media@ == "video/x-raw"@),
{
    assert(elements@[i].sets_capture_size());
    assert(filter is Some);
    assert(elements@[filter->Some_0 as int].sets_capture_size());
}

/// Where no element is a filter for raw video, none is resized.
pub proof fn law_only_raw_video_filters_are_resized(
    elements: Vec<PipelineElement>,
    filter: Option<usize>,
)
    requires
        call_ensures(set_capture_size, (&elements,), filter),
        filter is Some,
    ensures
        exists|i: int|
            {
                &&& 0 <= i < elements@.len()
                &&& (#[trigger] elements@[i]).factory@ == "capsfilter"@
                &&& elements@[i].media_type matches Some(media) && media@ == "video/x-raw"@
            },
{
    assert(elements@[filter->Some_0 as int].sets_capture_size());
}

/// Whether a kilobit rate is the one a bit rate comes to: its whole thousands,
/// and 1 where there are none.
pub open spec fn is_kilobits(bits: int, kilobits: int) -> bool {
    &&& kilobits >= 1
    &&& 1_000 * kilobits <= bits < 1_000 * kilobits + 1_000 || (bits < 1_000 && kilobits == 1)
}

/// A running encoder is set by the property of its kind, in that property's
/// unit: VP8 and VP9 in bits a second, AV1, x264, VA-API and NVENC in kilobits,
/// V4L2 by a control in bits. An encoder of no such name is left alone.
pub proof fn law_bitrates_are_set_in_the_encoders_unit(
    factory: &str,
    bits: u32,
    setting: BitrateSetting,
)
    requires
        call_ensures(set_encoder_bitrate, (factory, bits), setting),
    ensures
        setting is TargetBitrateBps <==> factory@ == "vp8enc"@ || factory@ == "vp9enc"@,
        setting is TargetBitrateKbps <==> factory@ == "svtav1enc"@ || factory@ == "av1enc"@,
        setting is VideoBitrateControl <==> says(factory@, "v4l2"@),
        setting is BitrateKbps <==> factory@ == "x264enc"@ || says(factory@, "va"@) || says(
            factory@,
            "nv"@,
        ),
        setting matches BitrateSetting::TargetBitrateBps(rate) ==> rate == bits || (rate
            == 0x7fff_ffff && bits > 0x7fff_ffff),
        setting matches BitrateSetting::VideoBitrateControl(rate) ==> rate == bits || (rate
            == 0x7fff_ffff && bits > 0x7fff_ffff),
        setting matches BitrateSetting::TargetBitrateKbps(rate) ==> is_kilobits(
            bits as int,
            rate as int,
        ),
        setting matches BitrateSetting::BitrateKbps(rate) ==> is_kilobits(
            bits as int,
            rate as int,
        ),
{
    lemma_named_encoders(factory@);
}

/// The AAC encoder that is taken is the first installed of the four that are
/// known; none is taken only when none of them is installed.
pub proof fn law_the_first_installed_aac_encoder_is_taken(
    registry: &Registry,
    encoder: Option<&'static str>,
    at: int,
)
    requires
        call_ensures(find_aac_encoder, (registry,), encoder),
        0 <= at < 4,
    ensures
        ({
            let known = seq!["fdkaacenc"@, "avenc_aac"@, "voaacenc"@, "faac"@];
            &&& encoder matches Some(name) ==> is_installed(registry, name@) && known.contains(
                name@,
            )
            &&& is_installed(registry, known[at]) ==> (encoder matches Some(name) && exists|i: int|
                0 <= i <= at && #[trigger] known[i] == name@)
        }),
{
    let known = seq!["fdkaacenc"@, "avenc_aac"@, "voaacenc"@, "faac"@];
    lemma_first_installed(known, registry);
}

/// Whether an element of a name is installed.
pub open spec fn is_installed(registry: &Registry, name: Seq<char>) -> bool {
    exists|i: int|
        0 <= i < registry.elements@.len() && (#[trigger] registry.elements@[i]).name@ == name
}

proof fn lemma_first_installed(names: Seq<Seq<char>>, registry: &Registry)
    ensures
        match first_installed(names, registry) {
            Some(name) => exists|i: int|
                {
                    &&& 0 <= i < names.len()
                    &&& #[trigger] names[i] == name
                    &&& is_installed(registry, name)
                    &&& forall|k: int|
                        0 <= k < i ==> !is_installed(registry, #[trigger] names[k])
                },
            None => forall|k: int|
                0 <= k < names.len() ==> !is_installed(registry, #[trigger] names[k]),
        },
    decreases names.len(),
{
    if names.len() > 0 && !registry.has(names[0]) {
        let rest = names.skip(1);
        lemma_first_installed(rest, registry);
        match first_installed(rest, registry) {
            Some(name) => {
                let i = choose|i: int|
                    {
                        &&& 0 <= i < rest.len()
                        &&& #[trigger] rest[i] == name
                        &&& is_installed(registry, name)
                        &&& forall|k: int|
                            0 <= k < i ==> !is_installed(registry, #[trigger] rest[k])
                    };
                assert(names[i + 1] == name);
                assert forall|k: int| 0 <= k < i + 1 implies !is_installed(
                    registry,
                    #[trigger] names[k],
                ) by {
                    if k > 0 {
                        assert(rest[k - 1] == names[k]);
                    }
                }
            },
            None => {
                assert forall|k: int| 0 <= k < names.len() implies !is_installed(
                    registry,
                    #[trigger] names[k],
                ) by {
                    if k > 0 {
                        assert(rest[k - 1] == names[k]);
                    }
                }
            },
        }
    }
}

/// The monitor is that of the sink that was printed, without the white space
/// around its name; there is none when the query failed or named no sink.
pub proof fn law_the_monitor_is_that_of_the_sink(
    success: bool,
    printed: &str,
    sink: &str,
    monitor: Option<String>,
)
    requires
        call_ensures(trim, (printed,), sink),
        call_ensures(default_audio_monitor, (success, Some(printed)), monitor),
    ensures
        monitor is Some <==> success && sink@.len() > 0,
        monitor matches Some(name) ==> name@ == sink@ + ".monitor"@,
{
}

/// A text occurs with the end of what stands ahead of it and the beginning of
/// what stands behind it.
proof fn lemma_occurs_between(
    text: Seq<char>,
    before: Seq<char>,
    ahead: Seq<char>,
    middle: Seq<char>,
    behind: Seq<char>,
    rest: Seq<char>,
    key: Seq<char>,
    end: Seq<char>,
)
    requires
        text == before + ahead + middle + behind + rest,
        key.len() <= ahead.len(),
        ahead.skip(ahead.len() - key.len()) == key,
        end.len() <= behind.len(),
        behind.take(end.len() as int) == end,
    ensures
        occurs(text, key + middle + end),
{
    let start = ahead.take(ahead.len() - key.len());
    let stop = behind.skip(end.len() as int);
    assert(ahead =~= start + key);
    assert(behind =~= end + stop);
    assert(text =~= (before + start) + (key + middle + end) + (stop + rest));
}

/// The fragment of an H.264 encoder carries the bitrate and the distance of its
/// key frames, under the names that the encoder has for them: in kilobits a
/// second everywhere but at V4L2, which counts bits.
pub proof fn law_h264_fragments_carry_their_settings(
    factory: Seq<char>,
    bitrate_kbps: i32,
    key_int: i32,
)
    ensures
        ({
            let text = h264_fragment(factory, bitrate_kbps, key_int);
            let kbps = signed_decimal(bitrate_kbps as int);
            let keys = signed_decimal(key_int as int);
            &&& factory == "x264enc"@ ==> occurs(
                text,
                " bitrate="@ + (kbps + " key-int-max="@ + keys) + " "@,
            )
            &&& says(factory, "nv"@) ==> occurs(
                text,
                " bitrate="@ + (kbps + " rc-mode=cbr gop-size="@ + keys) + " "@,
            )
            &&& says(factory, "v4l2"@) ==> occurs(
                text,
                "video_bitrate="@ + (signed_decimal(1_000 * bitrate_kbps) + ",video_gop_size="@
                    + keys) + "\""@,
            )
            &&& says(factory, "va"@) ==> occurs(
                text,
                " bitrate="@ + (kbps + " rate-control=cbr key-int-max="@ + keys) + ""@,
            )
        }),
{
    let text = h264_fragment(factory, bitrate_kbps, key_int);
    let kbps = signed_decimal(bitrate_kbps as int);
    let keys = signed_decimal(key_int as int);
    lemma_named_encoders(factory);
    reveal_strlit(" bitrate=");
    reveal_strlit(" ");
    reveal_strlit("");
    if factory == "x264enc"@ {
        let ahead = "x264enc name=venc tune=zerolatency speed-preset=veryfast bitrate="@;
        reveal_strlit("x264enc name=venc tune=zerolatency speed-preset=veryfast bitrate=");
        reveal_strlit(" bframes=0");
        let middle = kbps + " key-int-max="@ + keys;
        assert(ahead.skip(ahead.len() - 9) =~= " bitrate="@);
        assert(" bframes=0"@.take(1) =~= " "@);
        assert(text =~= Seq::empty() + ahead + middle + " bframes=0"@ + Seq::empty());
        lemma_occurs_between(
            text,
            Seq::empty(),
            ahead,
            middle,
            " bframes=0"@,
            Seq::empty(),
            " bitrate="@,
            " "@,
        );
    } else if begins(factory, "nv"@) {
        let ahead = " name=venc bitrate="@;
        reveal_strlit(" name=venc bitrate=");
        reveal_strlit(" bframes=0");
        let middle = kbps + " rc-mode=cbr gop-size="@ + keys;
        assert(ahead.skip(ahead.len() - 9) =~= " bitrate="@);
        assert(" bframes=0"@.take(1) =~= " "@);
        assert(text =~= factory + ahead + middle + " bframes=0"@ + Seq::empty());
        lemma_occurs_between(
            text,
            factory,
            ahead,
            middle,
            " bframes=0"@,
            Seq::empty(),
            " bitrate="@,
            " "@,
        );
    } else if begins(factory, "v4l2"@) {
        let ahead = " name=venc extra-controls=\"controls,video_bitrate="@;
        let end = "\""@;
        reveal_strlit(" name=venc extra-controls=\"controls,video_bitrate=");
        reveal_strlit("video_bitrate=");
        reveal_strlit("\"");
        let middle = signed_decimal(1_000 * bitrate_kbps) + ",video_gop_size="@ + keys;
        assert(ahead.skip(ahead.len() - 14) =~= "video_bitrate="@);
        assert(end.take(end.len() as int) =~= end);
        assert(text =~= factory + ahead + middle + end + Seq::empty());
        lemma_occurs_between(
            text,
            factory,
            ahead,
            middle,
            end,
            Seq::empty(),
            "video_bitrate="@,
            end,
        );
    } else if begins(factory, "va"@) {
        let ahead = " name=venc bitrate="@;
        reveal_strlit(" name=venc bitrate=");
        let middle = kbps + " rate-control=cbr key-int-max="@ + keys;
        assert(ahead.skip(ahead.len() - 9) =~= " bitrate="@);
        assert(""@.take(0) =~= ""@);
        assert(text =~= factory + ahead + middle + ""@ + Seq::empty());
        lemma_occurs_between(
            text,
            factory,
            ahead,
            middle,
            ""@,
            Seq::empty(),
            " bitrate="@,
            ""@,
        );
    }
}

/// Whether an H.264 encoder is out of the question: the user's choices rule it
/// out, or it was tried out in vain - hardware by opening its device.
pub open spec fn h264_is_unusable<F: Fn(&str, Probe) -> bool>(
    try_out: F,
    factory: Seq<char>,
    bitrate_kbps: i32,
    key_int: i32,
    policy: EncodingPolicy,
    registry: &Registry,
) -> bool {
    ||| !is_allowed(factory, policy, registry)
    ||| was_tried(
        try_out,
        h264_fragment(factory, bitrate_kbps, key_int),
        says(factory, "v4l2"@) || says(factory, "va"@) || says(factory, "nv"@),
        false,
    )
}

/// The H.264 encoder of an HLS stream is the first usable one of VA-API, its
/// low-power variant, NVENC, V4L2 and x264, with the bitrate and the distance of
/// key frames asked for; there is none only when all five are out of the
/// question.
pub proof fn law_the_first_usable_h264_encoder_is_taken<F: Fn(&str, Probe) -> bool>(
    bitrate_kbps: i32,
    key_int: i32,
    policy: EncodingPolicy,
    registry: &Registry,
    try_out: &F,
    fragment: Option<String>,
)
    requires
        call_ensures(
            find_h264_encoder::<F>,
            (bitrate_kbps, key_int, policy, registry, try_out),
            fragment,
        ),
    ensures
        is_first_usable_h264(*try_out, bitrate_kbps, key_int, policy, registry, text_in(fragment)),
{
    lemma_h264_picked(*try_out, bitrate_kbps, key_int, policy, registry, text_in(fragment));
}

/// Whether a fragment is that of the first usable H.264 encoder.
pub open spec fn is_first_usable_h264<F: Fn(&str, Probe) -> bool>(
    try_out: F,
    bitrate_kbps: i32,
    key_int: i32,
    policy: EncodingPolicy,
    registry: &Registry,
    fragment: Option<Seq<char>>,
) -> bool {
    let candidates = seq![
        "vah264enc"@,
        "vah264lpenc"@,
        "nvh264enc"@,
        "v4l2h264enc"@,
        "x264enc"@,
    ];
    match fragment {
        Some(text) => exists|i: int|
            {
                let factory = #[trigger] candidates[i];
                &&& 0 <= i < 5
                &&& is_allowed(factory, policy, registry)
                &&& text == h264_fragment(factory, bitrate_kbps, key_int)
                &&& was_tried(try_out, text, i < 4, true)
                &&& forall|k: int|
                    0 <= k < i ==> h264_is_unusable(
                        try_out,
                        #[trigger] candidates[k],
                        bitrate_kbps,
                        key_int,
                        policy,
                        registry,
                    )
            },
        None => forall|k: int|
            0 <= k < 5 ==> h264_is_unusable(
                try_out,
                #[trigger] candidates[k],
                bitrate_kbps,
                key_int,
                policy,
                registry,
            ),
    }
}

/// The candidates for H.264, and which of them are hardware by their names.
proof fn lemma_h264_candidates()
    ensures
        h264_encoders() == seq![
            "vah264enc"@,
            "vah264lpenc"@,
            "nvh264enc"@,
            "v4l2h264enc"@,
            "x264enc"@,
        ],
        forall|i: int|
            0 <= i < 5 ==> (i < 4 <==> begins(#[trigger] h264_encoders()[i], "v4l2"@) || begins(
                h264_encoders()[i],
                "va"@,
            ) || begins(h264_encoders()[i], "nv"@)),
{
    reveal_strlit("vah264enc");
    reveal_strlit("vah264lpenc");
    reveal_strlit("nvh264enc");
    reveal_strlit("v4l2h264enc");
    reveal_strlit("va");
    reveal_strlit("nv");
    reveal_strlit("v4l2");
    assert("vah264enc"@.take(2) =~= "va"@);
    assert("vah264lpenc"@.take(2) =~= "va"@);
    assert("nvh264enc"@.take(2) =~= "nv"@);
    assert("v4l2h264enc"@.take(4) =~= "v4l2"@);
    lemma_named_encoders("x264enc"@);
}

proof fn lemma_h264_picked<F: Fn(&str, Probe) -> bool>(
    try_out: F,
    bitrate_kbps: i32,
    key_int: i32,
    policy: EncodingPolicy,
    registry: &Registry,
    fragment: Option<Seq<char>>,
)
    requires
        h264_picked(try_out, bitrate_kbps, key_int, policy, registry, fragment),
    ensures
        is_first_usable_h264(try_out, bitrate_kbps, key_int, policy, registry, fragment),
{
    let candidates = seq![
        "vah264enc"@,
        "vah264lpenc"@,
        "nvh264enc"@,
        "v4l2h264enc"@,
        "x264enc"@,
    ];
    lemma_h264_candidates();
    assert(candidates == h264_encoders());
    assert forall|k: int|
        0 <= k < 5 && (is_allowed(#[trigger] candidates[k], policy, registry) ==> h264_probed(
            try_out,
            bitrate_kbps,
            key_int,
            k,
            false,
        )) implies h264_is_unusable(
        try_out,
        candidates[k],
        bitrate_kbps,
        key_int,
        policy,
        registry,
    ) by {
        lemma_named_encoders(candidates[k]);
        assert(h264_encoders()[k] == candidates[k]);
    }
    match fragment {
        Some(text) => {
            let i = choose|i: int|
                {
                    &&& 0 <= i < h264_encoders().len()
                    &&& is_allowed(#[trigger] h264_encoders()[i], policy, registry)
                    &&& h264_probed(try_out, bitrate_kbps, key_int, i, true)
                    &&& h264_ruled_out(try_out, bitrate_kbps, key_int, policy, registry, i)
                    &&& text == h264_fragment(h264_encoders()[i], bitrate_kbps, key_int)
                };
            let factory = candidates[i];
            lemma_named_encoders(factory);
            assert(factory == h264_encoders()[i]);
            assert(was_tried(try_out, text, i < 4, true));
            assert forall|k: int| 0 <= k < i implies h264_is_unusable(
                try_out,
                #[trigger] candidates[k],
                bitrate_kbps,
                key_int,
                policy,
                registry,
            ) by {
                assert(h264_encoders()[k] == candidates[k]);
            }
        },
        None => {
            assert forall|k: int| 0 <= k < 5 implies h264_is_unusable(
                try_out,
                #[trigger] candidates[k],
                bitrate_kbps,
                key_int,
                policy,
                registry,
            ) by {
                assert(h264_encoders()[k] == candidates[k]);
            }
        },
    }
}

/// What the raw video of an HLS stream is asked to be: its format, its frame
/// rate, and its size where one is set, with pixels as wide as they are high.
pub open spec fn raw_video(
    format: Seq<char>,
    fps: i32,
    size: Option<(i32, i32)>,
) -> Seq<char> {
    let rate = format + ",framerate="@ + signed_decimal(fps as int) + "/1"@;
    match size {
        Some((w, h)) => rate + ",width="@ + signed_decimal(w as int) + ",height="@
            + signed_decimal(h as int) + ",pixel-aspect-ratio=1/1"@,
        None => rate,
    }
}

/// Whether a text describes an HLS pipeline: the captured node, the raw video
/// and its encoder where there is video, the monitor and its encoder where there
/// is audio, and the playlist and the segments in the directory. Without video
/// the sink comes first, and without audio it comes last.
pub open spec fn describes_hls(
    text: Seq<char>,
    video: Option<(i32, u32)>,
    raw: Seq<char>,
    hls_dir: Seq<char>,
    audio: Option<(Seq<char>, Seq<char>)>,
    video_encoder: Seq<char>,
) -> bool {
    let files = "playlist-location="@ + (hls_dir + "/"@ + "stream.m3u8"@ + " location="@ + hls_dir)
        + "/segment%05d.ts"@;
    &&& occurs(text, files)
    &&& match video {
        Some((fd, node)) => {
            &&& occurs(
                text,
                "pipewiresrc fd="@ + (signed_decimal(fd as int) + " path="@ + decimal(
                    node as nat,
                )) + " "@,
            )
            &&& occurs(
                text,
                "video/x-raw,format="@ + (raw + " ! "@ + video_encoder)
                    + " ! h264parse ! queue ! hls.video "@,
            )
        },
        None => begins(text, "hlssink2 "@),
    }
    &&& match audio {
        Some((monitor, encoder)) => {
            &&& occurs(text, " pulsesrc device="@ + monitor + " provide-clock=false ! "@)
            &&& occurs(text, " audioresample ! "@ + encoder + " bitrate=128000 ! aacparse ! "@)
        },
        None => text.len() >= files.len() && text.skip(text.len() - files.len()) == files,
    }
}

proof fn lemma_sink_text(hls_dir: Seq<char>)
    ensures
        ({
            let files = "playlist-location="@ + (hls_dir + "/"@ + "stream.m3u8"@ + " location="@
                + hls_dir) + "/segment%05d.ts"@;
            let sink = hls_sink(hls_dir);
            &&& occurs(sink, files)
            &&& begins(sink, "hlssink2 "@)
            &&& sink.len() >= files.len()
            &&& sink.skip(sink.len() - files.len()) == files
        }),
{
    let ahead =
        "hlssink2 name=hls target-duration=1 playlist-length=3 max-files=6 playlist-location="@;
    reveal_strlit(
        "hlssink2 name=hls target-duration=1 playlist-length=3 max-files=6 playlist-location=",
    );
    reveal_strlit("playlist-location=");
    reveal_strlit("hlssink2 ");
    let sink = hls_sink(hls_dir);
    let middle = hls_dir + "/"@ + "stream.m3u8"@ + " location="@ + hls_dir;
    let end = "/segment%05d.ts"@;
    assert(ahead.skip(ahead.len() - 18) =~= "playlist-location="@);
    assert(end.take(end.len() as int) =~= end);
    assert(sink =~= Seq::empty() + ahead + middle + end + Seq::empty());
    lemma_occurs_between(
        sink,
        Seq::empty(),
        ahead,
        middle,
        end,
        Seq::empty(),
        "playlist-location="@,
        end,
    );
    assert(ahead.take(9) =~= "hlssink2 "@);
    assert(sink.take(9) =~= ahead.take(9));
    let files = "playlist-location="@ + middle + end;
    assert(ahead =~= ahead.take(ahead.len() - 18) + "playlist-location="@);
    assert(sink =~= ahead.take(ahead.len() - 18) + files);
    assert(sink.skip(sink.len() - files.len()) =~= files);
}

proof fn lemma_video_branch_text(
    fd: i32,
    node: u32,
    settings: StreamSettings,
    fps: i32,
    encoder: Seq<char>,
)
    ensures
        ({
            let text = hls_video_branch(fd, node, settings, fps, encoder);
            let raw = raw_video(caps_text(settings.encoding.format), fps, settings.size);
            &&& occurs(
                text,
                "pipewiresrc fd="@ + (signed_decimal(fd as int) + " path="@ + decimal(
                    node as nat,
                )) + " "@,
            )
            &&& occurs(
                text,
                "video/x-raw,format="@ + (raw + " ! "@ + encoder)
                    + " ! h264parse ! queue ! hls.video "@,
            )
        }),
{
    let text = hls_video_branch(fd, node, settings, fps, encoder);
    let raw = raw_video(caps_text(settings.encoding.format), fps, settings.size);
    let source = "pipewiresrc fd="@;
    let named = signed_decimal(fd as int) + " path="@ + decimal(node as nat);
    let between =
        " do-timestamp=true keepalive-time=1000 resend-last=true ! queue leaky=downstream max-size-buffers=3 max-size-bytes=0 max-size-time=0 ! videoconvert ! videoscale ! videorate ! video/x-raw,format="@;
    let coded = raw + " ! "@ + encoder;
    let end = " ! h264parse ! queue ! hls.video "@;
    lemma_source_words();
    assert(raw =~= caps_text(settings.encoding.format) + ",framerate="@ + signed_decimal(
        fps as int,
    ) + "/1"@ + size_caps(settings.size)) by {
        reveal_strlit("");
    }
    assert(source.skip(0) =~= source);
    assert(end.take(end.len() as int) =~= end);
    assert(text =~= Seq::empty() + source + named + between + (coded + end));
    lemma_occurs_between(
        text,
        Seq::empty(),
        source,
        named,
        between,
        coded + end,
        source,
        " "@,
    );
    assert(text =~= (source + named) + between + coded + end + Seq::empty());
    lemma_occurs_between(
        text,
        source + named,
        between,
        coded,
        end,
        Seq::empty(),
        "video/x-raw,format="@,
        end,
    );
}

/// How the words between the source and the raw video begin and end.
proof fn lemma_source_words()
    ensures
        ({
            let between =
                " do-timestamp=true keepalive-time=1000 resend-last=true ! queue leaky=downstream max-size-buffers=3 max-size-bytes=0 max-size-time=0 ! videoconvert ! videoscale ! videorate ! video/x-raw,format="@;
            let key = "video/x-raw,format="@;
            &&& key.len() <= between.len()
            &&& between.skip(between.len() - key.len()) == key
            &&& " "@.len() <= between.len()
            &&& between.take(" "@.len() as int) == " "@
        }),
{
    let between =
        " do-timestamp=true keepalive-time=1000 resend-last=true ! queue leaky=downstream max-size-buffers=3 max-size-bytes=0 max-size-time=0 ! videoconvert ! videoscale ! videorate ! video/x-raw,format="@;
    reveal_strlit(
        " do-timestamp=true keepalive-time=1000 resend-last=true ! queue leaky=downstream max-size-buffers=3 max-size-bytes=0 max-size-time=0 ! videoconvert ! videoscale ! videorate ! video/x-raw,format=",
    );
    reveal_strlit("video/x-raw,format=");
    reveal_strlit(" ");
    assert(between.skip(between.len() - 19) =~= "video/x-raw,format="@);
    assert(between.take(1) =~= " "@);
}

proof fn lemma_audio_branch_text(monitor: Seq<char>, encoder: Seq<char>)
    ensures
        occurs(
            hls_audio_branch(monitor, encoder),
            " pulsesrc device="@ + monitor + " provide-clock=false ! "@,
        ),
        occurs(
            hls_audio_branch(monitor, encoder),
            " audioresample ! "@ + encoder + " bitrate=128000 ! aacparse ! "@,
        ),
{
    let text = hls_audio_branch(monitor, encoder);
    let source = " pulsesrc device="@;
    let between = " provide-clock=false ! queue ! audioconvert ! audioresample ! "@;
    let end = " bitrate=128000 ! aacparse ! queue ! hls.audio"@;
    reveal_strlit(" provide-clock=false ! queue ! audioconvert ! audioresample ! ");
    reveal_strlit(" bitrate=128000 ! aacparse ! queue ! hls.audio");
    reveal_strlit(" provide-clock=false ! ");
    reveal_strlit(" audioresample ! ");
    reveal_strlit(" bitrate=128000 ! aacparse ! ");
    assert(source.skip(0) =~= source);
    assert(between.take(23) =~= " provide-clock=false ! "@);
    assert(between.skip(between.len() - 17) =~= " audioresample ! "@);
    assert(end.take(29) =~= " bitrate=128000 ! aacparse ! "@);
    assert(text =~= Seq::empty() + source + monitor + between + (encoder + end));
    lemma_occurs_between(
        text,
        Seq::empty(),
        source,
        monitor,
        between,
        encoder + end,
        source,
        " provide-clock=false ! "@,
    );
    assert(text =~= (source + monitor) + between + encoder + end + Seq::empty());
    lemma_occurs_between(
        text,
        source + monitor,
        between,
        encoder,
        end,
        Seq::empty(),
        " audioresample ! "@,
        " bitrate=128000 ! aacparse ! "@,
    );
}

proof fn lemma_hls_text(
    video: Option<(i32, u32)>,
    settings: StreamSettings,
    fps: i32,
    hls_dir: Seq<char>,
    audio: Option<(Seq<char>, Seq<char>)>,
    encoder: Seq<char>,
)
    ensures
        describes_hls(
            hls_description(video, settings, fps, hls_dir, audio, encoder),
            video,
            raw_video(caps_text(settings.encoding.format), fps, settings.size),
            hls_dir,
            audio,
            encoder,
        ),
{
    let text = hls_description(video, settings, fps, hls_dir, audio, encoder);
    let raw = raw_video(caps_text(settings.encoding.format), fps, settings.size);
    let files = "playlist-location="@ + (hls_dir + "/"@ + "stream.m3u8"@ + " location="@ + hls_dir)
        + "/segment%05d.ts"@;
    let sink = hls_sink(hls_dir);
    let first = match video {
        Some((fd, node)) => hls_video_branch(fd, node, settings, fps, encoder),
        None => ""@,
    };
    let last = match audio {
        Some((monitor, with)) => hls_audio_branch(monitor, with),
        None => ""@,
    };
    assert(text == first + sink + last);
    lemma_sink_text(hls_dir);
    lemma_occurs_within(text, first, sink, last, files);
    reveal_strlit("");
    match video {
        Some((fd, node)) => {
            lemma_video_branch_text(fd, node, settings, fps, encoder);
            assert(text =~= Seq::empty() + first + (sink + last));
            lemma_occurs_within(
                text,
                Seq::empty(),
                first,
                sink + last,
                "pipewiresrc fd="@ + (signed_decimal(fd as int) + " path="@ + decimal(
                    node as nat,
                )) + " "@,
            );
            lemma_occurs_within(
                text,
                Seq::empty(),
                first,
                sink + last,
                "video/x-raw,format="@ + (raw + " ! "@ + encoder)
                    + " ! h264parse ! queue ! hls.video "@,
            );
        },
        None => {
            assert(text =~= sink + last);
            reveal_strlit("hlssink2 ");
            assert(text.take(9) =~= sink.take(9));
        },
    }
    match audio {
        Some((monitor, with)) => {
            lemma_audio_branch_text(monitor, with);
            assert(text =~= (first + sink) + last + Seq::empty());
            lemma_occurs_within(
                text,
                first + sink,
                last,
                Seq::empty(),
                " pulsesrc device="@ + monitor + " provide-clock=false ! "@,
            );
            lemma_occurs_within(
                text,
                first + sink,
                last,
                Seq::empty(),
                " audioresample ! "@ + with + " bitrate=128000 ! aacparse ! "@,
            );
        },
        None => {
            assert(text =~= first + sink);
            assert(text.skip(text.len() - files.len()) =~= sink.skip(sink.len() - files.len()));
        },
    }
}

/// The description of an HLS pipeline names what it was asked for, each thing in
/// its place: the captured node, the raw format, frame rate and size that the
/// settings ask for, the encoders, the monitor, and the directory.
pub proof fn law_hls_pipelines_do_what_they_are_asked(
    video: Option<(i32, u32)>,
    settings: StreamSettings,
    fps: i32,
    hls_dir: &str,
    audio: Option<(&str, &str)>,
    video_encoder: &str,
    description: String,
    format: &'static str,
)
    requires
        call_ensures(
            launch_description,
            (video, &settings, fps, hls_dir, audio, video_encoder),
            description,
        ),
        call_ensures(FormatPolicy::caps_format, (settings.encoding.format,), format),
    ensures
        describes_hls(
            description@,
            video,
            raw_video(format@, fps, settings.size),
            hls_dir@,
            match audio {
                Some((monitor, encoder)) => Some((monitor@, encoder@)),
                None => None,
            },
            video_encoder@,
        ),
{
    lemma_hls_text(video, settings, fps, hls_dir@, pair_in(audio), video_encoder@);
}

/// The contents of two texts that go together, when both are there.
pub open spec fn both(first: Option<&str>, second: Option<&str>) -> Option<
    (Seq<char>, Seq<char>),
> {
    match (first, second) {
        (Some(a), Some(b)) => Some((a@, b@)),
        _ => None,
    }
}

/// An HLS cast with video fails only when every H.264 encoder is out of the
/// question; otherwise it is described with the first usable one, at the
/// bitrate agreed on and with a key frame every second. System audio goes along
/// when there is a monitor and an AAC encoder, and the plan says when it was
/// left out for want of an encoder.
pub proof fn law_hls_casts_are_planned<F: Fn(&str, Probe) -> bool>(
    video: Option<(i32, u32)>,
    settings: StreamSettings,
    resolved: Resolved,
    hls_dir: &str,
    audio_monitor: Option<&str>,
    registry: &Registry,
    try_out: F,
    plan: Result<HlsPlan, String>,
    every: i32,
    aac: Option<&'static str>,
    format: &'static str,
)
    requires
        call_ensures(
            build::<F>,
            (video, &settings, &resolved, hls_dir, audio_monitor, registry, &try_out),
            plan,
        ),
        call_ensures(find_aac_encoder, (registry,), aac),
        call_ensures(FormatPolicy::caps_format, (settings.encoding.format,), format),
        every == resolved.fps || (every == 1 && resolved.fps < 1),
        every >= 1,
    ensures
        plan is Err ==> video is Some && is_first_usable_h264(
            try_out,
            resolved.video_bitrate_kbps,
            every,
            settings.encoding,
            registry,
            None,
        ),
        plan matches Ok(plan) ==> plan.audio_missing == (audio_monitor is Some && aac is None),
        plan matches Ok(plan) ==> exists|encoder: Seq<char>|
            {
                &&& video is Some ==> is_first_usable_h264(
                    try_out,
                    resolved.video_bitrate_kbps,
                    every,
                    settings.encoding,
                    registry,
                    Some(encoder),
                )
                &&& #[trigger] describes_hls(
                    plan.description@,
                    video,
                    raw_video(format@, resolved.fps, settings.size),
                    hls_dir@,
                    both(audio_monitor, aac),
                    encoder,
                )
            },
{
    assert(every == hls_key_interval(resolved.fps));
    let audio = hls_audio(str_in(audio_monitor), registry);
    match plan {
        Ok(plan) => {
            let encoder = choose|encoder: Seq<char>|
                {
                    &&& video is None ==> encoder == ""@
                    &&& video is Some ==> h264_picked(
                        try_out,
                        resolved.video_bitrate_kbps,
                        hls_key_interval(resolved.fps),
                        settings.encoding,
                        registry,
                        Some(encoder),
                    )
                    &&& plan.description@ == #[trigger] hls_description(
                        video,
                        settings,
                        resolved.fps,
                        hls_dir@,
                        audio,
                        encoder,
                    )
                };
            lemma_hls_text(video, settings, resolved.fps, hls_dir@, audio, encoder);
            if video is Some {
                lemma_h264_picked(
                    try_out,
                    resolved.video_bitrate_kbps,
                    every,
                    settings.encoding,
                    registry,
                    Some(encoder),
                );
            }
        },
        Err(_) => {
            lemma_h264_picked(
                try_out,
                resolved.video_bitrate_kbps,
                every,
                settings.encoding,
                registry,
                None,
            );
        },
    }
}

/// An audio stream is MP3 wherever that can be encoded, or else AAC in ADTS
/// frames from the first installed encoder, of the monitor asked for and
/// advertised as what it is; it fails only when none of the encoders is there.
pub proof fn law_audio_streams_are_mp3_or_aac(
    monitor: &str,
    registry: &Registry,
    stream: Result<(String, &'static str), String>,
    aac: Option<&'static str>,
)
    requires
        call_ensures(build_audio_stream, (monitor, registry), stream),
        call_ensures(find_aac_encoder, (registry,), aac),
    ensures
        stream is Err <==> !is_installed(registry, "lamemp3enc"@) && aac is None,
        stream matches Ok((description, advertised)) ==> {
            &&& occurs(description@, "pulsesrc device="@ + monitor@ + " provide-clock=false ! "@)
            &&& is_installed(registry, "lamemp3enc"@) ==> advertised@ == "audio/mpeg"@ && occurs(
                description@,
                "channels=2 ! "@ + "lamemp3enc target=bitrate bitrate=128 cbr=true"@ + " ! appsink "@,
            )
            &&& !is_installed(registry, "lamemp3enc"@) ==> advertised@ == "audio/aac"@ && occurs(
                description@,
                "channels=2 ! "@ + (aac->Some_0@
                    + " bitrate=128000 ! aacparse ! audio/mpeg,mpegversion=4,stream-format=adts"@)
                    + " ! appsink "@,
            )
        },
{
    match audio_encoding(registry) {
        Some((encode, content_type)) => {
            let description = audio_stream_text(monitor@, encode);
            let source = "pulsesrc device="@;
            let between =
                " provide-clock=false ! queue ! audioconvert ! audioresample ! audio/x-raw,rate=44100,channels=2 ! "@;
            let end = " ! appsink name=asink sync=false max-buffers=64 drop=false"@;
            lemma_audio_stream_words();
            assert(source.skip(0) =~= source);
            assert(description =~= Seq::empty() + source + monitor@ + between + (encode + end));
            lemma_occurs_between(
                description,
                Seq::empty(),
                source,
                monitor@,
                between,
                encode + end,
                source,
                " provide-clock=false ! "@,
            );
            assert(description =~= (source + monitor@) + between + encode + end + Seq::empty());
            lemma_occurs_between(
                description,
                source + monitor@,
                between,
                encode,
                end,
                Seq::empty(),
                "channels=2 ! "@,
                " ! appsink "@,
            );
        },
        None => {},
    }
}

/// How the words around the encoder of an audio stream begin and end.
proof fn lemma_audio_stream_words()
    ensures
        ({
            let between =
                " provide-clock=false ! queue ! audioconvert ! audioresample ! audio/x-raw,rate=44100,channels=2 ! "@;
            let end = " ! appsink name=asink sync=false max-buffers=64 drop=false"@;
            let first = " provide-clock=false ! "@;
            let last = "channels=2 ! "@;
            &&& first.len() <= between.len() && between.take(first.len() as int) == first
            &&& last.len() <= between.len() && between.skip(between.len() - last.len()) == last
            &&& " ! appsink "@.len() <= end.len()
            &&& end.take(" ! appsink "@.len() as int) == " ! appsink "@
        }),
{
    let between =
        " provide-clock=false ! queue ! audioconvert ! audioresample ! audio/x-raw,rate=44100,channels=2 ! "@;
    let end = " ! appsink name=asink sync=false max-buffers=64 drop=false"@;
    reveal_strlit(
        " provide-clock=false ! queue ! audioconvert ! audioresample ! audio/x-raw,rate=44100,channels=2 ! ",
    );
    reveal_strlit(" ! appsink name=asink sync=false max-buffers=64 drop=false");
    reveal_strlit(" provide-clock=false ! ");
    reveal_strlit("channels=2 ! ");
    reveal_strlit(" ! appsink ");
    assert(between.take(23) =~= " provide-clock=false ! "@);
    assert(between.skip(between.len() - 13) =~= "channels=2 ! "@);
    assert(end.take(11) =~= " ! appsink "@);
}

} // verus!
