//! Video codec and encoder selection for the Cast Streaming (mirroring) path.
//!
//! The RTP/RTCP/crypto layer is codec-agnostic - it packetizes whole encrypted
//! frames - so the only codec-specific parts of mirroring are the `codecName`
//! advertised in the OFFER and the `GStreamer` encoder element. This module
//! owns both: which codecs can be encoded locally, and the encoder for each,
//! **preferring hardware** (VA-API/NVENC/V4L2) over software.
//!
//! Every candidate fragment is probed before use, so a hardware encoder that is
//! present but mis-parametrised falls back to the next candidate (and
//! ultimately software) rather than failing the cast.

use vstd::prelude::*;
use vstd::string::StringExecFns;

use crate::text::{
    begins, cut, cut_ends, decimal, law_prefixes_come_off, lines, lines_of, occurs, place_of,
    push_decimal, same, split_at_char, split_words, starts_with, texts, trim, trimmed,
    without_prefix, words_of, CutSet,
};

verus! {

#[derive(Clone, Copy, PartialEq, Eq, Structural, Debug)]
pub enum VideoCodec {
    Vp8,
    Vp9,
    Av1,
    H264,
}

/// The `codecName` string of a codec.
pub open spec fn codec_text(codec: VideoCodec) -> Seq<char> {
    match codec {
        VideoCodec::Vp8 => "vp8"@,
        VideoCodec::Vp9 => "vp9"@,
        VideoCodec::Av1 => "av1"@,
        VideoCodec::H264 => "h264"@,
    }
}

/// The codec that a text names.
pub open spec fn codec_named(text: Seq<char>) -> Option<VideoCodec> {
    if text == "vp8"@ {
        Some(VideoCodec::Vp8)
    } else if text == "vp9"@ {
        Some(VideoCodec::Vp9)
    } else if text == "av1"@ {
        Some(VideoCodec::Av1)
    } else if text == "h264"@ {
        Some(VideoCodec::H264)
    } else {
        None
    }
}

impl VideoCodec {
    /// The `codecName` string used in the Cast OFFER.
    pub fn codec_name(self) -> (name: &'static str)
        ensures
            name@ == codec_text(self),
    {
        match self {
            VideoCodec::Vp8 => "vp8",
            VideoCodec::Vp9 => "vp9",
            VideoCodec::Av1 => "av1",
            VideoCodec::H264 => "h264",
        }
    }

    /// The codec with a `codecName`; `None` for any other text.
    pub fn parse(value: &str) -> (codec: Option<VideoCodec>)
        ensures
            codec == codec_named(value@),
    {
        if same(value, "vp8") {
            Some(VideoCodec::Vp8)
        } else if same(value, "vp9") {
            Some(VideoCodec::Vp9)
        } else if same(value, "av1") {
            Some(VideoCodec::Av1)
        } else if same(value, "h264") {
            Some(VideoCodec::H264)
        } else {
            None
        }
    }
}

/// Which encoders the user will accept. `Auto` keeps the hardware-first order in
/// `factories`; the rest are escape hatches - `Software` for a driver that is
/// present but misbehaving, and the three API choices for a machine with more
/// than one hardware path, where the automatic order picks the wrong one (a
/// hybrid laptop always prefers its integrated VA-API encoder over NVENC).
#[derive(Clone, Copy, PartialEq, Eq, Structural, Debug)]
pub enum EncoderPolicy {
    Auto,
    Hardware,
    Software,
    VaApi,
    Nvenc,
    V4l2,
}

/// The raw format fed to the encoder. Forcing one narrows the candidate list
/// rather than the caps, because an encoder that cannot take the format would
/// otherwise fail to link.
#[derive(Clone, Copy, PartialEq, Eq, Structural, Debug)]
pub enum FormatPolicy {
    Auto,
    Nv12,
    I420,
}

#[derive(Clone, Copy, PartialEq, Eq, Structural, Debug)]
pub struct EncodingPolicy {
    pub encoder: EncoderPolicy,
    pub format: FormatPolicy,
}

impl Default for EncoderPolicy {
    fn default() -> (policy: Self)
        ensures
            policy == EncoderPolicy::Auto,
    {
        EncoderPolicy::Auto
    }
}

impl Default for FormatPolicy {
    fn default() -> (policy: Self)
        ensures
            policy == FormatPolicy::Auto,
    {
        FormatPolicy::Auto
    }
}

/// The policy of a user who chose nothing.
pub open spec fn no_policy() -> EncodingPolicy {
    EncodingPolicy { encoder: EncoderPolicy::Auto, format: FormatPolicy::Auto }
}

impl Default for EncodingPolicy {
    fn default() -> (policy: Self)
        ensures
            policy == no_policy(),
    {
        EncodingPolicy { encoder: EncoderPolicy::Auto, format: FormatPolicy::Auto }
    }
}

/// The encoder policy that a text names.
pub open spec fn encoder_policy_named(text: Seq<char>) -> EncoderPolicy {
    if text == "hardware"@ {
        EncoderPolicy::Hardware
    } else if text == "software"@ {
        EncoderPolicy::Software
    } else if text == "vaapi"@ {
        EncoderPolicy::VaApi
    } else if text == "nvenc"@ {
        EncoderPolicy::Nvenc
    } else if text == "v4l2"@ {
        EncoderPolicy::V4l2
    } else {
        EncoderPolicy::Auto
    }
}

impl EncoderPolicy {
    /// Anything unrecognised means `Auto`: the extension sending the option can
    /// be a different version than the daemon reading it.
    pub fn parse(value: &str) -> (policy: EncoderPolicy)
        ensures
            policy == encoder_policy_named(value@),
    {
        if same(value, "hardware") {
            EncoderPolicy::Hardware
        } else if same(value, "software") {
            EncoderPolicy::Software
        } else if same(value, "vaapi") {
            EncoderPolicy::VaApi
        } else if same(value, "nvenc") {
            EncoderPolicy::Nvenc
        } else if same(value, "v4l2") {
            EncoderPolicy::V4l2
        } else {
            EncoderPolicy::Auto
        }
    }
}

/// The format policy that a text names.
pub open spec fn format_policy_named(text: Seq<char>) -> FormatPolicy {
    if text == "nv12"@ {
        FormatPolicy::Nv12
    } else if text == "i420"@ {
        FormatPolicy::I420
    } else {
        FormatPolicy::Auto
    }
}

/// The `format` field of the raw caps that feed the encoder.
pub open spec fn caps_text(format: FormatPolicy) -> Seq<char> {
    match format {
        FormatPolicy::Auto => "{NV12,I420}"@,
        FormatPolicy::Nv12 => "NV12"@,
        FormatPolicy::I420 => "I420"@,
    }
}

/// The format an encoder is required to accept.
pub open spec fn required_format(format: FormatPolicy) -> Option<Seq<char>> {
    match format {
        FormatPolicy::Auto => None,
        FormatPolicy::Nv12 => Some("NV12"@),
        FormatPolicy::I420 => Some("I420"@),
    }
}

impl FormatPolicy {
    pub fn parse(value: &str) -> (policy: FormatPolicy)
        ensures
            policy == format_policy_named(value@),
    {
        if same(value, "nv12") {
            FormatPolicy::Nv12
        } else if same(value, "i420") {
            FormatPolicy::I420
        } else {
            FormatPolicy::Auto
        }
    }

    /// The `format` field for the raw caps feeding the encoder. `Auto` offers
    /// both, letting negotiation pick NV12 for VA-API and I420 for the rest -
    /// leaving it out entirely would let videoconvert choose 4:4:4.
    pub fn caps_format(self) -> (format: &'static str)
        ensures
            format@ == caps_text(self),
    {
        match self {
            FormatPolicy::Auto => "{NV12,I420}",
            FormatPolicy::Nv12 => "NV12",
            FormatPolicy::I420 => "I420",
        }
    }

    /// The format an encoder is required to accept, or `None` when unconstrained.
    fn required(self) -> (format: Option<&'static str>)
        ensures
            format is Some <==> required_format(self) is Some,
            format matches Some(text) ==> required_format(self) == Some(text@),
    {
        match self {
            FormatPolicy::Auto => None,
            FormatPolicy::Nv12 => Some("NV12"),
            FormatPolicy::I420 => Some("I420"),
        }
    }
}

/// How efficient a codec is, the best first - used to break ties among codecs at
/// the same hardware tier. VP8 is last and mandatory (every Cast-V2 receiver
/// decodes it), so it is the guaranteed fallback.
pub open spec fn efficiency(codec: VideoCodec) -> int {
    match codec {
        VideoCodec::Av1 => 0,
        VideoCodec::Vp9 => 1,
        VideoCodec::H264 => 2,
        VideoCodec::Vp8 => 3,
    }
}

/// The codecs, the most efficient first.
pub open spec fn by_efficiency() -> Seq<VideoCodec> {
    seq![VideoCodec::Av1, VideoCodec::Vp9, VideoCodec::H264, VideoCodec::Vp8]
}

/// The codecs, the most efficient first.
pub fn efficiency_order() -> (order: Vec<VideoCodec>)
    ensures
        order@ == by_efficiency(),
{
    let order = vec![VideoCodec::Av1, VideoCodec::Vp9, VideoCodec::H264, VideoCodec::Vp8];
    assert(order@ =~= by_efficiency());
    order
}

fn efficiency_rank(codec: VideoCodec) -> (rank: u8)
    ensures
        rank == efficiency(codec),
{
    match codec {
        VideoCodec::Av1 => 0,
        VideoCodec::Vp9 => 1,
        VideoCodec::H264 => 2,
        VideoCodec::Vp8 => 3,
    }
}

/// The encoder factories to try for a codec, best first.
pub open spec fn factory_names(codec: VideoCodec) -> Seq<Seq<char>> {
    match codec {
        VideoCodec::H264 => seq![
            "vah264enc"@,
            "vah264lpenc"@,
            "nvh264enc"@,
            "v4l2h264enc"@,
            "x264enc"@,
        ],
        VideoCodec::Vp8 => seq!["vavp8enc"@, "vavp8lpenc"@, "v4l2vp8enc"@, "vp8enc"@],
        VideoCodec::Vp9 => seq!["vavp9enc"@, "vavp9lpenc"@, "v4l2vp9enc"@, "vp9enc"@],
        VideoCodec::Av1 => seq![
            "vaav1enc"@,
            "vaav1lpenc"@,
            "nvav1enc"@,
            "v4l2av1enc"@,
            "svtav1enc"@,
            "av1enc"@,
        ],
    }
}

/// `GStreamer` encoder factories to try for `codec`, best first: hardware
/// (VA-API, then NVENC, then V4L2) ahead of software.
pub fn factories(codec: VideoCodec) -> (names: Vec<&'static str>)
    ensures
        texts(names@) == factory_names(codec),
{
    let names: Vec<&'static str> = match codec {
        // The v4l2* elements exist only when a kernel device advertises that
        // codec, which is how Arm boards (Raspberry Pi, Rockchip, Amlogic)
        // expose their encoders. Absent everywhere else, and dropped by the
        // usability check when they are.
        VideoCodec::H264 => vec![
            "vah264enc",
            "vah264lpenc",
            "nvh264enc",
            "v4l2h264enc",
            "x264enc",
        ],
        VideoCodec::Vp8 => vec!["vavp8enc", "vavp8lpenc", "v4l2vp8enc", "vp8enc"],
        // Intel encodes VP9 only in low power mode, so the `lp` element is the
        // only VA-API VP9 encoder that exists on most machines.
        VideoCodec::Vp9 => vec!["vavp9enc", "vavp9lpenc", "v4l2vp9enc", "vp9enc"],
        // SVT-AV1 is far faster than aom's av1enc, so prefer it in software.
        VideoCodec::Av1 => vec![
            "vaav1enc",
            "vaav1lpenc",
            "nvav1enc",
            "v4l2av1enc",
            "svtav1enc",
            "av1enc",
        ],
    };
    assert(texts(names@) =~= factory_names(codec));
    names
}

/// The hardware API an encoder element belongs to. Each reaches different
/// silicon: VA-API for Intel and AMD, NVENC for NVIDIA, V4L2 for the stateful
/// encoders on Arm boards.
#[derive(Clone, Copy, PartialEq, Eq, Structural, Debug)]
pub enum Api {
    Va,
    Nvenc,
    V4l2,
}

/// The hardware API that an element's name says it belongs to.
pub open spec fn api_named(factory: Seq<char>) -> Option<Api> {
    if begins(factory, "v4l2"@) {
        Some(Api::V4l2)
    } else if begins(factory, "va"@) {
        Some(Api::Va)
    } else if begins(factory, "nv"@) {
        Some(Api::Nvenc)
    } else {
        None
    }
}

/// The hardware API an encoder element belongs to, or `None` for software. The
/// three prefixes are how `GStreamer` names these plugins' elements.
pub fn api_of(factory: &str) -> (api: Option<Api>)
    ensures
        api == api_named(factory@),
{
    // v4l2 first: it is the only prefix that could be read as another's.
    if starts_with(factory, "v4l2") {
        Some(Api::V4l2)
    } else if starts_with(factory, "va") {
        Some(Api::Va)
    } else if starts_with(factory, "nv") {
        Some(Api::Nvenc)
    } else {
        None
    }
}

/// VA-API / NVENC / V4L2 elements are hardware; everything else is software.
pub fn is_hardware(factory: &str) -> (hardware: bool)
    ensures
        hardware == (api_named(factory@) is Some),
{
    api_of(factory).is_some()
}

/// An installed element, with the raw video formats that its sink pad takes
/// from system memory.
pub struct Element {
    pub name: String,
    pub formats: Vec<String>,
}

/// The multimedia elements and plugins that are installed.
pub struct Registry {
    pub elements: Vec<Element>,
    /// Whether the va plugin is loaded at all, regardless of which elements it
    /// managed to register. It registers one element per capability the libva
    /// driver reports, so "plugin loaded but no encoder" means the driver is
    /// missing or cannot encode, which needs different advice than a missing
    /// plugin.
    pub va_plugin: bool,
}

/// Whether a list of texts holds a text.
pub open spec fn holds(list: Seq<String>, text: Seq<char>) -> bool {
    exists|i: int| 0 <= i < list.len() && (#[trigger] list[i])@ == text
}

impl Registry {
    /// Whether an element is installed.
    pub open spec fn has(&self, name: Seq<char>) -> bool {
        exists|i: int| 0 <= i < self.elements@.len() && (#[trigger] self.elements@[i]).name@ == name
    }

    /// Whether an element is installed that accepts a raw format.
    pub open spec fn accepts(&self, name: Seq<char>, format: Seq<char>) -> bool {
        exists|i: int|
            0 <= i < self.elements@.len() && (#[trigger] self.elements@[i]).name@ == name && holds(
                self.elements@[i].formats@,
                format,
            )
    }

    /// Whether an element is installed.
    pub fn installed(&self, name: &str) -> (installed: bool)
        ensures
            installed == self.has(name@),
    {
        let mut at: usize = 0;
        while at < self.elements.len()
            invariant
                at <= self.elements@.len(),
                forall|i: int| 0 <= i < at ==> (#[trigger] self.elements@[i]).name@ != name@,
            decreases self.elements@.len() - at,
        {
            if same(self.elements[at].name.as_str(), name) {
                assert(self.elements@[at as int].name@ == name@);
                return true;
            }
            at = at + 1;
        }
        false
    }

    /// Whether `factory` accepts raw video in `format` on its sink pad. An
    /// element that is not installed accepts nothing.
    pub fn accepts_format(&self, factory: &str, format: &str) -> (accepts: bool)
        ensures
            accepts == self.accepts(factory@, format@),
    {
        let mut at: usize = 0;
        while at < self.elements.len()
            invariant
                at <= self.elements@.len(),
                forall|i: int|
                    0 <= i < at ==> !((#[trigger] self.elements@[i]).name@ == factory@ && holds(
                        self.elements@[i].formats@,
                        format@,
                    )),
            decreases self.elements@.len() - at,
        {
            let element = &self.elements[at];
            if same(element.name.as_str(), factory) && contains(&element.formats, format) {
                assert(self.elements@[at as int].name@ == factory@);
                return true;
            }
            at = at + 1;
        }
        false
    }
}

/// Whether a list of texts holds a text.
pub fn contains(list: &Vec<String>, text: &str) -> (found: bool)
    ensures
        found == holds(list@, text@),
{
    let mut at: usize = 0;
    while at < list.len()
        invariant
            at <= list@.len(),
            forall|i: int| 0 <= i < at ==> (#[trigger] list@[i])@ != text@,
        decreases list@.len() - at,
    {
        if same(list[at].as_str(), text) {
            assert(list@[at as int]@ == text@);
            return true;
        }
        at = at + 1;
    }
    false
}

/// Whether an encoder of some hardware API, or of none, is one the user accepts.
pub open spec fn api_allowed(api: Option<Api>, policy: EncoderPolicy) -> bool {
    match policy {
        EncoderPolicy::Auto => true,
        EncoderPolicy::Hardware => api is Some,
        EncoderPolicy::Software => api is None,
        EncoderPolicy::VaApi => api == Some(Api::Va),
        EncoderPolicy::Nvenc => api == Some(Api::Nvenc),
        EncoderPolicy::V4l2 => api == Some(Api::V4l2),
    }
}

/// Whether an encoder may be used under a policy.
pub open spec fn is_allowed(
    factory: Seq<char>,
    policy: EncodingPolicy,
    registry: &Registry,
) -> bool {
    &&& api_allowed(api_named(factory), policy.encoder)
    &&& match required_format(policy.format) {
        Some(format) => registry.accepts(factory, format),
        None => true,
    }
}

/// Whether `factory` may be used under `policy`. Shared with the HLS path so
/// both pipelines honour the setting the same way.
pub fn allowed(factory: &str, policy: EncodingPolicy, registry: &Registry) -> (allowed: bool)
    ensures
        allowed == is_allowed(factory@, policy, registry),
{
    let api = api_of(factory);
    let encoder_ok = match policy.encoder {
        EncoderPolicy::Auto => true,
        EncoderPolicy::Hardware => api.is_some(),
        EncoderPolicy::Software => api.is_none(),
        EncoderPolicy::VaApi => matches!(api, Some(Api::Va)),
        EncoderPolicy::Nvenc => matches!(api, Some(Api::Nvenc)),
        EncoderPolicy::V4l2 => matches!(api, Some(Api::V4l2)),
    };
    if !encoder_ok {
        return false;
    }
    match policy.format.required() {
        Some(format) => registry.accepts_format(factory, format),
        None => true,
    }
}

/// A bitrate in kbit/s, at least one.
pub open spec fn kilobits(bitrate_bps: u32) -> nat {
    if bitrate_bps >= 1000 {
        (bitrate_bps / 1000) as nat
    } else {
        1
    }
}

/// A key frame about every two seconds, in frames.
pub open spec fn key_interval(fps: u32) -> nat {
    if fps == 0 {
        1
    } else if 2 * fps <= u32::MAX {
        (2 * fps) as nat
    } else {
        u32::MAX as nat
    }
}

/// The properties that follow the element's name in a launch fragment.
pub open spec fn fragment_properties(
    factory: Seq<char>,
    bitrate_bps: u32,
    fps: u32,
) -> Seq<char> {
    let bps = decimal(bitrate_bps as nat);
    let kbps = decimal(kilobits(bitrate_bps));
    let key_int = decimal(key_interval(fps));
    if factory == "vp8enc"@ || factory == "vp9enc"@ {
        " deadline=1 cpu-used=8 end-usage=cbr target-bitrate="@ + bps + " keyframe-max-dist="@
            + key_int + " lag-in-frames=0 error-resilient=default threads=4"@
    } else if factory == "svtav1enc"@ {
        " preset=12 target-bitrate="@ + kbps + " intra-period-length="@ + key_int
    } else if factory == "av1enc"@ {
        " usage-profile=realtime end-usage=cbr target-bitrate="@ + kbps
            + " cpu-used=9 lag-in-frames=0 keyframe-max-dist="@ + key_int + " threads=4"@
    } else if factory == "x264enc"@ {
        " tune=zerolatency speed-preset=veryfast bitrate="@ + kbps + " key-int-max="@ + key_int
            + " bframes=0"@
    } else if begins(factory, "va"@) {
        " bitrate="@ + kbps + " rate-control=cbr"@
    } else if begins(factory, "nv"@) {
        " bitrate="@ + kbps + " rc-mode=cbr"@
    } else if begins(factory, "v4l2"@) {
        " extra-controls=\"controls,video_bitrate="@ + bps + ",video_gop_size="@ + key_int + "\""@
    } else {
        Seq::empty()
    }
}

/// The launch fragment of an encoder: an element named `venc`, and its properties.
pub open spec fn fragment_text(factory: Seq<char>, bitrate_bps: u32, fps: u32) -> Seq<char> {
    factory + " name=venc"@ + fragment_properties(factory, bitrate_bps, fps)
}

/// The launch fragment configuring `factory` for low-latency CBR at
/// `bitrate_bps`, producing an element named `venc` (so keyframe forcing can
/// find it). `fps` sizes the keyframe interval. Hardware params are kept
/// minimal - just bitrate and CBR - to maximise the chance they parse across
/// driver/plugin versions; the probe drops any that don't.
pub fn launch_for(factory: &str, bitrate_bps: u32, fps: u32) -> (fragment: String)
    ensures
        fragment@ == fragment_text(factory@, bitrate_bps, fps),
{
    // svtav1/av1/VA/NVENC want kbit/s
    let kbps: u64 = if bitrate_bps >= 1000 {
        (bitrate_bps / 1000) as u64
    } else {
        1
    };
    let key_int: u64 = if fps == 0 {
        1
    } else if fps <= u32::MAX / 2 {
        fps as u64 * 2
    } else {
        u32::MAX as u64
    };
    let bps: u64 = bitrate_bps as u64;
    let mut properties = String::new();
    let ghost expected = fragment_properties(factory@, bitrate_bps, fps);
    if same(factory, "vp8enc") || same(factory, "vp9enc") {
        // vp8enc and vp9enc share the VPX base and its properties (bit/s).
        properties = " deadline=1 cpu-used=8 end-usage=cbr target-bitrate=".to_owned();
        push_decimal(&mut properties, bps);
        properties.append(" keyframe-max-dist=");
        push_decimal(&mut properties, key_int);
        properties.append(" lag-in-frames=0 error-resilient=default threads=4");
    } else if same(factory, "svtav1enc") {
        properties = " preset=12 target-bitrate=".to_owned();
        push_decimal(&mut properties, kbps);
        properties.append(" intra-period-length=");
        push_decimal(&mut properties, key_int);
    } else if same(factory, "av1enc") {
        properties = " usage-profile=realtime end-usage=cbr target-bitrate=".to_owned();
        push_decimal(&mut properties, kbps);
        properties.append(" cpu-used=9 lag-in-frames=0 keyframe-max-dist=");
        push_decimal(&mut properties, key_int);
        properties.append(" threads=4");
    } else if same(factory, "x264enc") {
        properties = " tune=zerolatency speed-preset=veryfast bitrate=".to_owned();
        push_decimal(&mut properties, kbps);
        properties.append(" key-int-max=");
        push_decimal(&mut properties, key_int);
        properties.append(" bframes=0");
    } else if starts_with(factory, "va") {
        // VA-API (GStreamer 'va' plugin): bitrate in kbit/s, CBR rate control.
        properties = " bitrate=".to_owned();
        push_decimal(&mut properties, kbps);
        properties.append(" rate-control=cbr");
    } else if starts_with(factory, "nv") {
        // NVENC (GStreamer 'nvcodec' plugin).
        properties = " bitrate=".to_owned();
        push_decimal(&mut properties, kbps);
        properties.append(" rc-mode=cbr");
    } else if starts_with(factory, "v4l2") {
        // V4L2 stateful encoders take no bitrate property: everything goes
        // through V4L2 controls, in bit/s. The structure name is arbitrary, and
        // controls a device does not implement are ignored rather than fatal.
        properties = " extra-controls=\"controls,video_bitrate=".to_owned();
        push_decimal(&mut properties, bps);
        properties.append(",video_gop_size=");
        push_decimal(&mut properties, key_int);
        properties.append("\"");
    }
    assert(properties@ == expected);
    let mut fragment = factory.to_owned();
    fragment.append(" name=venc");
    fragment.append(properties.as_str());
    fragment
}

/// How thoroughly a fragment is to be tried out.
#[derive(Clone, Copy, PartialEq, Eq, Structural, Debug)]
pub enum Probe {
    /// It names a real element with valid properties and enum values.
    Parses,
    /// The element can also open its device, not merely be created. A hardware
    /// encoder is registered from what the plugin believed about the driver
    /// when the registry was built, which is regularly a lie: a discrete GPU
    /// asleep under runtime power management, a registry cached from before the
    /// driver was installed, a VA-API driver advertising a profile it cannot
    /// open, a V4L2 node another process holds. It is asked before the encoder
    /// is ever put in a pipeline - a mirroring session has no way back to
    /// software once it starts.
    Opens,
}

/// What is asked of an encoder's fragment. Hardware candidates have to open
/// their device; software ones only have to parse, since they cannot fail that
/// way and the probe is not free.
pub open spec fn probe_for(factory: Seq<char>) -> Probe {
    if api_named(factory) is Some {
        Probe::Opens
    } else {
        Probe::Parses
    }
}

/// Whether trying out a fragment may have come out as `usable`.
pub open spec fn probed<F: Fn(&str, Probe) -> bool>(
    try_out: F,
    factory: Seq<char>,
    fragment: Seq<char>,
    usable: bool,
) -> bool {
    exists|text: &str|
        text@ == fragment && #[trigger] call_ensures(try_out, (text, probe_for(factory)), usable)
}

/// Whether `factory`'s `fragment` is usable here, as `try_out` finds.
pub fn fragment_usable<F: Fn(&str, Probe) -> bool>(
    factory: &str,
    fragment: &str,
    try_out: &F,
) -> (usable: bool)
    requires
        forall|text: &str, probe: Probe| #[trigger] call_requires(*try_out, (text, probe)),
    ensures
        probed(*try_out, factory@, fragment@, usable),
{
    if is_hardware(factory) {
        try_out(fragment, Probe::Opens)
    } else {
        try_out(fragment, Probe::Parses)
    }
}

/// Whether candidate `i` for a codec was usable, as far as trying it out can tell.
pub open spec fn candidate_probed<F: Fn(&str, Probe) -> bool>(
    try_out: F,
    codec: VideoCodec,
    bitrate_bps: u32,
    fps: u32,
    i: int,
    usable: bool,
) -> bool {
    let factory = factory_names(codec)[i];
    probed(try_out, factory, fragment_text(factory, bitrate_bps, fps), usable)
}

/// Whether the first `upto` candidates for a codec are all ruled out: each is
/// forbidden by the policy, or was tried out and is not usable.
pub open spec fn ruled_out<F: Fn(&str, Probe) -> bool>(
    try_out: F,
    codec: VideoCodec,
    bitrate_bps: u32,
    fps: u32,
    policy: EncodingPolicy,
    registry: &Registry,
    upto: int,
) -> bool {
    forall|i: int|
        0 <= i < upto ==> is_allowed(#[trigger] factory_names(codec)[i], policy, registry)
            ==> candidate_probed(try_out, codec, bitrate_bps, fps, i, false)
}

/// Whether candidate `i` for a codec is the one to take: the first that the
/// policy allows and that is usable.
pub open spec fn first_usable<F: Fn(&str, Probe) -> bool>(
    try_out: F,
    codec: VideoCodec,
    bitrate_bps: u32,
    fps: u32,
    policy: EncodingPolicy,
    registry: &Registry,
    i: int,
) -> bool {
    &&& 0 <= i < factory_names(codec).len()
    &&& is_allowed(factory_names(codec)[i], policy, registry)
    &&& candidate_probed(try_out, codec, bitrate_bps, fps, i, true)
    &&& ruled_out(try_out, codec, bitrate_bps, fps, policy, registry, i)
}

/// Whether `picked` is what selecting an encoder for a codec comes to.
pub open spec fn encoder_picked<F: Fn(&str, Probe) -> bool>(
    try_out: F,
    codec: VideoCodec,
    bitrate_bps: u32,
    fps: u32,
    policy: EncodingPolicy,
    registry: &Registry,
    picked: Option<(String, bool)>,
) -> bool {
    match picked {
        Some((fragment, hardware)) => exists|i: int|
            #![trigger factory_names(codec)[i]]
            first_usable(try_out, codec, bitrate_bps, fps, policy, registry, i) && fragment@
                == fragment_text(factory_names(codec)[i], bitrate_bps, fps) && hardware
                == (api_named(factory_names(codec)[i]) is Some),
        None => ruled_out(
            try_out,
            codec,
            bitrate_bps,
            fps,
            policy,
            registry,
            factory_names(codec).len() as int,
        ),
    }
}

/// The encoder fragment for `codec` and whether it is hardware, or `None` when
/// no encoder for it is installed **and** permitted by `policy`. Returns the
/// first candidate that turns out usable.
pub fn video_encoder<F: Fn(&str, Probe) -> bool>(
    codec: VideoCodec,
    bitrate_bps: u32,
    fps: u32,
    policy: EncodingPolicy,
    registry: &Registry,
    try_out: &F,
) -> (picked: Option<(String, bool)>)
    requires
        forall|text: &str, probe: Probe| #[trigger] call_requires(*try_out, (text, probe)),
    ensures
        encoder_picked(*try_out, codec, bitrate_bps, fps, policy, registry, picked),
{
    let names = factories(codec);
    let mut at: usize = 0;
    while at < names.len()
        invariant
            at <= names@.len(),
            texts(names@) == factory_names(codec),
            forall|text: &str, probe: Probe| #[trigger] call_requires(*try_out, (text, probe)),
            ruled_out(*try_out, codec, bitrate_bps, fps, policy, registry, at as int),
        decreases names@.len() - at,
    {
        let factory = names[at];
        assert(texts(names@)[at as int] == factory@);
        if allowed(factory, policy, registry) {
            let fragment = launch_for(factory, bitrate_bps, fps);
            let usable = fragment_usable(factory, fragment.as_str(), try_out);
            assert(candidate_probed(*try_out, codec, bitrate_bps, fps, at as int, usable));
            if usable {
                let picked = Some((fragment, is_hardware(factory)));
                assert(first_usable(
                    *try_out,
                    codec,
                    bitrate_bps,
                    fps,
                    policy,
                    registry,
                    at as int,
                ));
                return picked;
            }
        }
        at = at + 1;
    }
    None
}

/// Whether any hardware encoder element is installed.
pub open spec fn has_hardware_encoder(registry: &Registry) -> bool {
    exists|codec: VideoCodec, i: int|
        0 <= i < factory_names(codec).len() && api_named(
            #[trigger] factory_names(codec)[i],
        ) is Some && registry.has(factory_names(codec)[i])
}

/// Whether any hardware encoder element is installed. A registry lookup rather
/// than the probe `video_encoder` uses: instantiating a VA element initialises
/// the libva driver, which costs hundreds of milliseconds, and this only answers
/// a hint in preferences.
pub fn hardware_encoder_available(registry: &Registry) -> (available: bool)
    ensures
        available == has_hardware_encoder(registry),
{
    let order = efficiency_order();
    let mut at: usize = 0;
    while at < order.len()
        invariant
            at <= order@.len(),
            order@ == by_efficiency(),
            forall|c: int, i: int|
                0 <= c < at && 0 <= i < factory_names(order@[c]).len() ==> !(api_named(
                    #[trigger] factory_names(order@[c])[i],
                ) is Some && registry.has(factory_names(order@[c])[i])),
        decreases order@.len() - at,
    {
        let codec = order[at];
        let names = factories(codec);
        let mut next: usize = 0;
        while next < names.len()
            invariant
                next <= names@.len(),
                texts(names@) == factory_names(codec),
                forall|i: int|
                    0 <= i < next ==> !(api_named(#[trigger] factory_names(codec)[i]) is Some
                        && registry.has(factory_names(codec)[i])),
            decreases names@.len() - next,
        {
            assert(texts(names@)[next as int] == names@[next as int]@);
            if is_hardware(names[next]) && registry.installed(names[next]) {
                assert(api_named(factory_names(codec)[next as int]) is Some);
                return true;
            }
            next = next + 1;
        }
        at = at + 1;
    }
    proof {
        assert forall|codec: VideoCodec, i: int|
            0 <= i < factory_names(codec).len() implies !(api_named(
            #[trigger] factory_names(codec)[i],
        ) is Some && registry.has(factory_names(codec)[i])) by {
            assert(order@[efficiency(codec)] == codec);
        }
    }
    false
}

/// What a graphics card means for hardware encoding. Only these three groups
/// lead anywhere different: silicon reached through VA-API, silicon reached
/// through NVENC, and silicon there is nothing to install for.
#[derive(Clone, Copy, PartialEq, Eq, Structural, Debug)]
pub enum Gpu {
    VaApi,
    Nvenc,
    Neither,
}

/// The encoder API that a DRM driver leads to.
pub open spec fn gpu_named(driver: Seq<char>) -> Gpu {
    if driver == "i915"@ || driver == "xe"@ || driver == "amdgpu"@ || driver == "radeon"@ {
        Gpu::VaApi
    } else if driver == "nvidia"@ || driver == "nvidia-drm"@ || driver == "nouveau"@ {
        Gpu::Nvenc
    } else {
        Gpu::Neither
    }
}

/// Classifies a DRM driver name into the encoder API it leads to.
///
/// `Neither` is the honest answer for a lot of real hardware, and it produces no
/// advice at all: a system on chip (`v3d`/`vc4` on a Raspberry Pi,
/// `panfrost`/`panthor` on Mali, `msm`, `rockchip`, `sun4i`, `mediatek`,
/// `meson`) encodes through V4L2; a VM (`virtio_gpu`, `vmwgfx`, `qxl`, `vkms`,
/// `simpledrm`) has no encoder to reach; a server display chip (`ast`,
/// `mgag200`) never had one; and Apple Silicon under `asahi` has no open encoder
/// driver. Telling any of those users to install a VA-API driver would send them
/// after something that does not exist for their machine.
pub fn gpu_class(driver: &str) -> (gpu: Gpu)
    ensures
        gpu == gpu_named(driver@),
{
    // Intel: i915 through Alder Lake and friends, xe from Lunar Lake on.
    // AMD: amdgpu for GCN and later, radeon for the older cards - whose
    // encode support is thin, but the packages to install are the same.
    if same(driver, "i915") || same(driver, "xe") || same(driver, "amdgpu") || same(
        driver,
        "radeon",
    ) {
        Gpu::VaApi
    } else if same(driver, "nvidia") || same(driver, "nvidia-drm") || same(driver, "nouveau") {
        // The proprietary driver and its open kernel module both expose NVENC.
        // Nouveau does not expose it at all, so the fix there is the same swap.
        Gpu::Nvenc
    } else {
        Gpu::Neither
    }
}

/// An entry of the DRM class directory.
pub struct DrmNode {
    pub name: String,
    /// The contents of its device's uevent file; empty when it cannot be read.
    pub uevent: String,
    /// The name that its device's driver link points at.
    pub driver_link: Option<String>,
}

/// The value of the first line that starts with a key.
pub open spec fn value_after(lines: Seq<Seq<char>>, key: Seq<char>) -> Option<Seq<char>>
    decreases lines.len(),
{
    if lines.len() == 0 {
        None
    } else if begins(lines[0], key) {
        Some(lines[0].skip(key.len() as int))
    } else {
        value_after(lines.skip(1), key)
    }
}

/// The driver that a uevent file names.
pub open spec fn uevent_driver(uevent: Seq<char>) -> Option<Seq<char>> {
    match value_after(lines_of(uevent), "DRIVER="@) {
        Some(value) => if trimmed(value).len() > 0 {
            Some(trimmed(value))
        } else {
            None
        },
        None => None,
    }
}

/// The contents of an optional text.
pub open spec fn text_in(text: Option<String>) -> Option<Seq<char>> {
    match text {
        Some(text) => Some(text@),
        None => None,
    }
}

/// The driver behind a render node.
pub open spec fn driver_of(uevent: Seq<char>, driver_link: Option<Seq<char>>) -> Option<Seq<char>> {
    match uevent_driver(uevent) {
        Some(driver) => Some(driver),
        None => driver_link,
    }
}

/// The driver for one render node: the `DRIVER=` line of its device uevent, or
/// the name its `driver` symlink points at when the uevent carries no such line.
pub fn node_driver(uevent: &str, driver_link: &Option<String>) -> (driver: Option<String>)
    ensures
        text_in(driver) == driver_of(uevent@, text_in(*driver_link)),
{
    let all = lines(uevent);
    let mut at: usize = 0;
    assert(texts(all@).skip(0) =~= texts(all@));
    while at < all.len()
        invariant
            at <= all@.len(),
            texts(all@) == lines_of(uevent@),
            value_after(texts(all@).skip(at as int), "DRIVER="@) == value_after(
                texts(all@),
                "DRIVER="@,
            ),
        decreases all@.len() - at,
    {
        assert(texts(all@).skip(at as int)[0] == all@[at as int]@);
        if starts_with(all[at], "DRIVER=") {
            let value = without_prefix(all[at], "DRIVER=");
            let name = trim(value);
            if !name.is_empty() {
                return Some(name.to_owned());
            }
            return driver_link.clone();
        }
        assert(texts(all@).skip(at as int).skip(1) =~= texts(all@).skip(at + 1));
        at = at + 1;
    }
    driver_link.clone()
}

/// The texts of some strings.
pub open spec fn string_texts(list: Seq<String>) -> Seq<Seq<char>> {
    Seq::new(list.len(), |i: int| list[i]@)
}

/// Whether an entry of the DRM class directory is a render node.
pub fn is_render_node(name: &str) -> (is: bool)
    ensures
        is == begins(name@, "renderD"@),
{
    starts_with(name, "renderD")
}

/// The drivers behind the render nodes among some DRM entries, in their order.
pub open spec fn drivers_of(nodes: Seq<DrmNode>) -> Seq<Seq<char>>
    decreases nodes.len(),
{
    if nodes.len() == 0 {
        Seq::empty()
    } else {
        let before = drivers_of(nodes.drop_last());
        let node = nodes.last();
        match driver_of(node.uevent@, text_in(node.driver_link)) {
            Some(driver) if begins(node.name@, "renderD"@) => before.push(driver),
            _ => before,
        }
    }
}

/// The DRM driver behind each render node, e.g. `["nvidia", "i915"]` on a hybrid
/// laptop. From what sysfs says rather than probed, so it costs nothing and
/// answers the same with a discrete GPU powered down.
pub fn render_node_drivers(nodes: &Vec<DrmNode>) -> (drivers: Vec<String>)
    ensures
        string_texts(drivers@) == drivers_of(nodes@),
{
    let mut drivers: Vec<String> = Vec::new();
    let mut at: usize = 0;
    assert(string_texts(drivers@) =~= Seq::empty());
    assert(nodes@.take(0) =~= Seq::empty());
    while at < nodes.len()
        invariant
            at <= nodes@.len(),
            string_texts(drivers@) == drivers_of(nodes@.take(at as int)),
        decreases nodes@.len() - at,
    {
        let ghost before = drivers@;
        assert(nodes@.take(at + 1).drop_last() =~= nodes@.take(at as int));
        let node = &nodes[at];
        if is_render_node(node.name.as_str()) {
            if let Some(driver) = node_driver(node.uevent.as_str(), &node.driver_link) {
                drivers.push(driver);
                assert(string_texts(drivers@) =~= string_texts(before).push(driver@));
            }
        }
        at = at + 1;
    }
    assert(nodes@.take(at as int) =~= nodes@);
    drivers
}

/// The value of the first `NAME=value` line of a name, without the white space
/// and then the double quotes around it; empty when there is none.
pub open spec fn release_value(lines: Seq<Seq<char>>, name: Seq<char>) -> Seq<char>
    decreases lines.len(),
{
    if lines.len() == 0 {
        Seq::empty()
    } else {
        let at = place_of(lines[0], '=');
        if at < lines[0].len() && trimmed(lines[0].take(at)) == name {
            cut_ends(trimmed(lines[0].skip(at + 1)), CutSet::DoubleQuotes)
        } else {
            release_value(lines.skip(1), name)
        }
    }
}

/// The `ID` and then the `ID_LIKE` values of an os-release file.
pub open spec fn release_ids(text: Seq<char>) -> Seq<Seq<char>> {
    words_of(release_value(lines_of(text), "ID"@)) + words_of(
        release_value(lines_of(text), "ID_LIKE"@),
    )
}

fn release_value_of<'a>(all: &Vec<&'a str>, name: &str) -> (value: &'a str)
    ensures
        value@ == release_value(texts(all@), name@),
{
    let mut at: usize = 0;
    assert(texts(all@).skip(0) =~= texts(all@));
    while at < all.len()
        invariant
            at <= all@.len(),
            release_value(texts(all@).skip(at as int), name@) == release_value(
                texts(all@),
                name@,
            ),
        decreases all@.len() - at,
    {
        let line = all[at];
        assert(texts(all@).skip(at as int)[0] == line@);
        if let Some((left, right)) = split_at_char(line, '=') {
            if same(trim(left), name) {
                return cut(trim(right), CutSet::DoubleQuotes);
            }
        }
        assert(texts(all@).skip(at as int).skip(1) =~= texts(all@).skip(at + 1));
        at = at + 1;
    }
    proof {
        reveal_strlit("");
        assert(""@ =~= Seq::<char>::empty());
    }
    ""
}

/// The `ID` and `ID_LIKE` values from an os-release file, in that order.
pub fn os_release_ids<'a>(text: &'a str) -> (ids: Vec<&'a str>)
    ensures
        texts(ids@) == release_ids(text@),
{
    let all = lines(text);
    let mut ids = split_words(release_value_of(&all, "ID"));
    let like = split_words(release_value_of(&all, "ID_LIKE"));
    let ghost own = ids@;
    let mut at: usize = 0;
    assert(texts(ids@) =~= texts(own) + texts(like@).take(0));
    while at < like.len()
        invariant
            at <= like@.len(),
            texts(ids@) == texts(own) + texts(like@).take(at as int),
        decreases like@.len() - at,
    {
        let ghost before = ids@;
        ids.push(like[at]);
        proof {
            assert(texts(ids@) =~= texts(before).push(like@[at as int]@));
            assert(texts(like@).take(at + 1) =~= texts(like@).take(at as int).push(
                like@[at as int]@,
            ));
        }
        at = at + 1;
    }
    assert(texts(like@).take(at as int) =~= texts(like@));
    ids
}

/// The package with the va plugin on a distribution.
pub open spec fn package_on(id: Seq<char>) -> Option<Seq<char>> {
    if id == "arch"@ {
        Some("gst-plugin-va"@)
    } else if id == "ubuntu"@ || id == "debian"@ {
        Some("gstreamer1.0-plugins-bad"@)
    } else if id == "fedora"@ || id == "rhel"@ || id == "centos"@ {
        Some("gstreamer1-plugins-bad-free"@)
    } else if id == "opensuse"@ || id == "suse"@ {
        Some("gstreamer-plugins-bad"@)
    } else {
        None
    }
}

/// The package for the first distribution that is known; empty when none is.
pub open spec fn package_for(ids: Seq<Seq<char>>) -> Seq<char>
    decreases ids.len(),
{
    if ids.len() == 0 {
        ""@
    } else {
        match package_on(ids[0]) {
            Some(package) => package,
            None => package_for(ids.skip(1)),
        }
    }
}

/// The package carrying the `GStreamer` `va` plugin (`vah264enc` and friends) on
/// the distributions that are known, matched on `ID` then `ID_LIKE`. Empty for
/// the rest: the extension then phrases the hint without naming a package.
pub fn va_package_for(ids: &[&str]) -> (package: &'static str)
    ensures
        package@ == package_for(texts(ids@)),
{
    let mut at: usize = 0;
    assert(texts(ids@).skip(0) =~= texts(ids@));
    while at < ids.len()
        invariant
            at <= ids@.len(),
            package_for(texts(ids@).skip(at as int)) == package_for(texts(ids@)),
        decreases ids@.len() - at,
    {
        let id = ids[at];
        assert(texts(ids@).skip(at as int)[0] == id@);
        if same(id, "arch") {
            return "gst-plugin-va";
        }
        if same(id, "ubuntu") || same(id, "debian") {
            return "gstreamer1.0-plugins-bad";
        }
        if same(id, "fedora") || same(id, "rhel") || same(id, "centos") {
            return "gstreamer1-plugins-bad-free";
        }
        if same(id, "opensuse") || same(id, "suse") {
            return "gstreamer-plugins-bad";
        }
        assert(texts(ids@).skip(at as int).skip(1) =~= texts(ids@).skip(at + 1));
        at = at + 1;
    }
    ""
}

/// Why hardware encoding is unavailable on a machine.
pub open spec fn gap_text(hardware: bool, gpus: Seq<Gpu>, plugin: bool) -> Seq<char> {
    if hardware {
        ""@
    } else if gpus.contains(Gpu::VaApi) {
        if plugin {
            "driver"@
        } else {
            "plugin"@
        }
    } else if gpus.contains(Gpu::Nvenc) {
        "nvidia"@
    } else {
        ""@
    }
}

fn has_gpu(gpus: &[Gpu], wanted: Gpu) -> (found: bool)
    ensures
        found == gpus@.contains(wanted),
{
    let mut at: usize = 0;
    while at < gpus.len()
        invariant
            at <= gpus@.len(),
            forall|i: int| 0 <= i < at ==> gpus@[i] != wanted,
        decreases gpus@.len() - at,
    {
        if gpus[at] == wanted {
            return true;
        }
        at = at + 1;
    }
    false
}

/// Why hardware encoding is unavailable, as a token the extension turns into a
/// translated sentence: `plugin` for VA-API silicon with no va plugin, `driver`
/// for a va plugin that registered no encoder, `nvidia` for a machine whose only
/// hardware path is NVENC. Empty when hardware encoding already works, and empty
/// for hardware no install would help - saying nothing beats sending someone
/// after a package that does not exist for their GPU.
///
/// VA-API wins on a hybrid machine: its packages are the ones a user can
/// realistically install, and the integrated GPU is the one always present.
pub fn hardware_gap(hardware: bool, gpus: &[Gpu], plugin: bool) -> (gap: &'static str)
    ensures
        gap@ == gap_text(hardware, gpus@, plugin),
{
    if hardware {
        return "";
    }
    if has_gpu(gpus, Gpu::VaApi) {
        return if plugin {
            "driver"
        } else {
            "plugin"
        };
    }
    if has_gpu(gpus, Gpu::Nvenc) {
        return "nvidia";
    }
    ""
}

/// The kinds of graphics card that some drivers stand for.
pub open spec fn gpus_of(drivers: Seq<Seq<char>>) -> Seq<Gpu> {
    Seq::new(drivers.len(), |i: int| gpu_named(drivers[i]))
}

/// Why hardware encoding is unavailable on a host.
pub open spec fn host_gap(nodes: Seq<DrmNode>, registry: &Registry) -> Seq<char> {
    gap_text(has_hardware_encoder(registry), gpus_of(drivers_of(nodes)), registry.va_plugin)
}

/// Why hardware encoding is unavailable on this host, and the package that would
/// fix it when its name is known. Only the missing-plugin advice names a
/// package, so only it has `os_release` read the distribution's description.
pub fn hardware_encoding_gap<F: Fn() -> String>(
    nodes: &Vec<DrmNode>,
    registry: &Registry,
    os_release: &F,
) -> (gap: (&'static str, &'static str))
    requires
        call_requires(*os_release, ()),
    ensures
        gap.0@ == host_gap(nodes@, registry),
        gap.0@ != "plugin"@ ==> gap.1@ == ""@,
        gap.0@ == "plugin"@ ==> exists|text: String|
            #[trigger] call_ensures(*os_release, (), text) && gap.1@ == package_for(
                release_ids(text@),
            ),
{
    let drivers = render_node_drivers(nodes);
    let mut gpus: Vec<Gpu> = Vec::new();
    let mut at: usize = 0;
    while at < drivers.len()
        invariant
            at <= drivers@.len(),
            gpus@.len() == at,
            forall|i: int| 0 <= i < at ==> #[trigger] gpus@[i] == gpu_named(drivers@[i]@),
        decreases drivers@.len() - at,
    {
        gpus.push(gpu_class(drivers[at].as_str()));
        at = at + 1;
    }
    assert(gpus@ =~= gpus_of(string_texts(drivers@)));
    let gap = hardware_gap(
        hardware_encoder_available(registry),
        gpus.as_slice(),
        registry.va_plugin,
    );
    let package = if same(gap, "plugin") {
        let text = os_release();
        va_package_for(os_release_ids(text.as_str()).as_slice())
    } else {
        ""
    };
    (gap, package)
}

/// Why no encoder was usable under a policy.
pub open spec fn failure_text(policy: EncodingPolicy) -> Seq<char> {
    match policy.encoder {
        EncoderPolicy::Auto => if policy.format == FormatPolicy::Auto {
            "No video encoder is installed. Install the GStreamer encoder plugins for your system."@
        } else {
            "No video encoder accepts the selected pixel format. Set the pixel format preference back to automatic."@
        },
        EncoderPolicy::Hardware => "No hardware video encoder can be used for this device. Set the video encoder preference back to automatic."@,
        EncoderPolicy::Software => "No software video encoder can be used for this device. Set the video encoder preference back to automatic."@,
        EncoderPolicy::VaApi => "No VA-API encoder can be used for this device. Set the video encoder preference back to automatic."@,
        EncoderPolicy::Nvenc => "No NVENC encoder can be used for this device. Set the video encoder preference back to automatic."@,
        EncoderPolicy::V4l2 => "No V4L2 encoder can be used for this device. Set the video encoder preference back to automatic."@,
    }
}

/// Why no encoder was usable, phrased for the user - this reaches them verbatim,
/// so it names the setting to change rather than the `GStreamer` element that
/// was missing.
pub fn policy_failure_message(policy: EncodingPolicy) -> (message: String)
    ensures
        message@ == failure_text(policy),
{
    let message = match policy.encoder {
        EncoderPolicy::Auto => match policy.format {
            FormatPolicy::Auto =>
                "No video encoder is installed. Install the GStreamer encoder plugins for your system.",
            _ =>
                "No video encoder accepts the selected pixel format. Set the pixel format preference back to automatic.",
        },
        EncoderPolicy::Hardware =>
            "No hardware video encoder can be used for this device. Set the video encoder preference back to automatic.",
        EncoderPolicy::Software =>
            "No software video encoder can be used for this device. Set the video encoder preference back to automatic.",
        // Named per API, because "hardware" is not what the user chose here.
        EncoderPolicy::VaApi =>
            "No VA-API encoder can be used for this device. Set the video encoder preference back to automatic.",
        EncoderPolicy::Nvenc =>
            "No NVENC encoder can be used for this device. Set the video encoder preference back to automatic.",
        EncoderPolicy::V4l2 =>
            "No V4L2 encoder can be used for this device. Set the video encoder preference back to automatic.",
    };
    message.to_owned()
}

/// Where a codec stands in the order of preference: hardware-encodable codecs
/// first, then by efficiency.
pub open spec fn preference(codec: VideoCodec, hardware: bool) -> int {
    efficiency(codec) + if hardware {
        0int
    } else {
        4
    }
}

/// The codecs of a place in the order of preference, in their order.
pub open spec fn codecs_at(available: Seq<(VideoCodec, bool)>, place: int) -> Seq<VideoCodec>
    decreases available.len(),
{
    if available.len() == 0 {
        Seq::empty()
    } else {
        let before = codecs_at(available.drop_last(), place);
        let (codec, hardware) = available.last();
        if preference(codec, hardware) == place {
            before.push(codec)
        } else {
            before
        }
    }
}

/// The codecs of the first places in the order of preference.
pub open spec fn codecs_up_to(available: Seq<(VideoCodec, bool)>, places: int) -> Seq<VideoCodec>
    decreases places,
{
    if places <= 0 {
        Seq::empty()
    } else {
        codecs_up_to(available, places - 1) + codecs_at(available, places - 1)
    }
}

/// Some codecs in the order of preference.
pub open spec fn preferred(available: Seq<(VideoCodec, bool)>) -> Seq<VideoCodec> {
    codecs_up_to(available, 8)
}

/// Sorts codecs that can be encoded, each with whether its encoder is hardware:
/// **hardware-encodable ones first**, then by efficiency.
pub fn rank_codecs(available: &Vec<(VideoCodec, bool)>) -> (codecs: Vec<VideoCodec>)
    ensures
        codecs@ == preferred(available@),
{
    let mut codecs: Vec<VideoCodec> = Vec::new();
    let mut place: u8 = 0;
    while place < 8
        invariant
            place <= 8,
            codecs@ == codecs_up_to(available@, place as int),
        decreases 8 - place,
    {
        let ghost before = codecs@;
        let mut at: usize = 0;
        assert(available@.take(0) =~= Seq::empty());
        assert(codecs@ =~= before + codecs_at(available@.take(0), place as int));
        while at < available.len()
            invariant
                at <= available@.len(),
                place < 8,
                codecs@ == before + codecs_at(available@.take(at as int), place as int),
            decreases available@.len() - at,
        {
            let (codec, hardware) = available[at];
            assert(available@.take(at + 1).drop_last() =~= available@.take(at as int));
            let tier: u8 = if hardware {
                0
            } else {
                4
            };
            if efficiency_rank(codec) + tier == place {
                codecs.push(codec);
                assert(codecs@ =~= before + codecs_at(available@.take(at + 1), place as int));
            }
            at = at + 1;
        }
        assert(available@.take(at as int) =~= available@);
        place = place + 1;
    }
    codecs
}

/// Whether a codec may be offered when one may be forced.
pub open spec fn offerable(codec: VideoCodec, forced: Option<VideoCodec>) -> bool {
    forced is None || forced == Some(codec)
}

/// The bitrate that encoders are tried out with for an OFFER.
pub const OFFER_BITRATE_BPS: u32 = 4_000_000;

/// The frame rate that encoders are tried out with for an OFFER.
pub const OFFER_FPS: u32 = 30;

/// Whether `available` is what trying out the first `upto` codecs comes to: the
/// offerable ones that have an encoder, each with whether that is hardware.
pub open spec fn availability<F: Fn(&str, Probe) -> bool>(
    try_out: F,
    policy: EncodingPolicy,
    forced: Option<VideoCodec>,
    registry: &Registry,
    upto: int,
    available: Seq<(VideoCodec, bool)>,
) -> bool
    decreases upto,
{
    if upto <= 0 {
        available == Seq::<(VideoCodec, bool)>::empty()
    } else {
        let codec = by_efficiency()[upto - 1];
        if !offerable(codec, forced) {
            availability(try_out, policy, forced, registry, upto - 1, available)
        } else {
            ||| {
                &&& encoder_picked(
                    try_out,
                    codec,
                    OFFER_BITRATE_BPS,
                    OFFER_FPS,
                    policy,
                    registry,
                    None,
                )
                &&& availability(try_out, policy, forced, registry, upto - 1, available)
            }
            ||| {
                &&& available.len() > 0
                &&& available.last().0 == codec
                &&& exists|fragment: String|
                    #[trigger] encoder_picked(
                        try_out,
                        codec,
                        OFFER_BITRATE_BPS,
                        OFFER_FPS,
                        policy,
                        registry,
                        Some((fragment, available.last().1)),
                    )
                &&& availability(
                    try_out,
                    policy,
                    forced,
                    registry,
                    upto - 1,
                    available.drop_last(),
                )
            }
        }
    }
}

/// The codecs that can be encoded on this host, **hardware-encodable ones
/// first**, then by efficiency; only the forced codec when one is forced. Used
/// to build the OFFER - only codecs that can be produced are advertised, in the
/// order they are preferred.
pub fn available_video_codecs<F: Fn(&str, Probe) -> bool>(
    policy: EncodingPolicy,
    forced: Option<VideoCodec>,
    registry: &Registry,
    try_out: &F,
) -> (codecs: Vec<VideoCodec>)
    requires
        forall|text: &str, probe: Probe| #[trigger] call_requires(*try_out, (text, probe)),
    ensures
        exists|available: Seq<(VideoCodec, bool)>|
            #[trigger] availability(*try_out, policy, forced, registry, 4, available) && codecs@
                == preferred(available),
{
    let order = efficiency_order();
    let mut available: Vec<(VideoCodec, bool)> = Vec::new();
    let mut at: usize = 0;
    while at < order.len()
        invariant
            at <= order@.len(),
            order@ == by_efficiency(),
            forall|text: &str, probe: Probe| #[trigger] call_requires(*try_out, (text, probe)),
            availability(*try_out, policy, forced, registry, at as int, available@),
        decreases order@.len() - at,
    {
        let codec = order[at];
        let ghost before = available@;
        let offer = match forced {
            Some(only) => codec == only,
            None => true,
        };
        if offer {
            match video_encoder(codec, OFFER_BITRATE_BPS, OFFER_FPS, policy, registry, try_out) {
                Some((fragment, hardware)) => {
                    available.push((codec, hardware));
                    assert(available@.drop_last() =~= before);
                    assert(encoder_picked(
                        *try_out,
                        codec,
                        OFFER_BITRATE_BPS,
                        OFFER_FPS,
                        policy,
                        registry,
                        Some((fragment, available@.last().1)),
                    ));
                },
                None => {},
            }
        }
        at = at + 1;
    }
    rank_codecs(&available)
}

/// Every codec is named by its own `codecName`, and by nothing else.
pub proof fn law_codec_names_parse_back(codec: VideoCodec, text: Seq<char>)
    ensures
        codec_named(codec_text(codec)) == Some(codec),
        codec_named(text) == Some(codec) ==> text == codec_text(codec),
{
    reveal_strlit("vp8");
    reveal_strlit("vp9");
    reveal_strlit("av1");
    reveal_strlit("h264");
    assert("vp8"@[2] == '8');
    assert("vp9"@[2] == '9');
    assert("av1"@[2] == '1');
    assert("h264"@.len() == 4);
}

/// Every API choice is a hardware choice, so software never qualifies under
/// one; and an encoder of one API never qualifies under another's.
pub proof fn law_api_choices_are_hardware_choices(
    factory: Seq<char>,
    policy: EncodingPolicy,
    registry: &Registry,
)
    requires
        is_allowed(factory, policy, registry),
    ensures
        policy.encoder == EncoderPolicy::Hardware || policy.encoder == EncoderPolicy::VaApi
            || policy.encoder == EncoderPolicy::Nvenc || policy.encoder == EncoderPolicy::V4l2
            ==> api_named(factory) is Some,
        policy.encoder == EncoderPolicy::Software ==> api_named(factory) is None,
        policy.encoder == EncoderPolicy::VaApi ==> api_named(factory) == Some(Api::Va),
        policy.encoder == EncoderPolicy::Nvenc ==> api_named(factory) == Some(Api::Nvenc),
        policy.encoder == EncoderPolicy::V4l2 ==> api_named(factory) == Some(Api::V4l2),
{
}

/// A forced pixel format leaves only encoders that accept it.
pub proof fn law_forced_formats_are_accepted(
    factory: Seq<char>,
    policy: EncodingPolicy,
    registry: &Registry,
)
    requires
        is_allowed(factory, policy, registry),
        policy.format != FormatPolicy::Auto,
    ensures
        registry.accepts(factory, caps_text(policy.format)),
{
}

/// Every fragment starts with its element, named `venc`.
pub proof fn law_fragments_name_the_encoder_venc(factory: Seq<char>, bitrate_bps: u32, fps: u32)
    ensures
        begins(fragment_text(factory, bitrate_bps, fps), factory + " name=venc"@),
{
    let name = factory + " name=venc"@;
    assert(fragment_text(factory, bitrate_bps, fps).take(name.len() as int) =~= name);
}

/// The candidates for a codec come hardware first: no hardware encoder is
/// listed after a software one, and the last candidate is always software.
pub proof fn law_hardware_is_tried_first(codec: VideoCodec, i: int, j: int)
    requires
        0 <= i < j < factory_names(codec).len(),
    ensures
        api_named(factory_names(codec)[j]) is Some ==> api_named(factory_names(codec)[i]) is Some,
        api_named(factory_names(codec).last()) is None,
{
    reveal_strlit("v4l2");
    reveal_strlit("va");
    reveal_strlit("nv");
    reveal_strlit("vah264enc");
    reveal_strlit("vah264lpenc");
    reveal_strlit("nvh264enc");
    reveal_strlit("v4l2h264enc");
    reveal_strlit("x264enc");
    reveal_strlit("vavp8enc");
    reveal_strlit("vavp8lpenc");
    reveal_strlit("v4l2vp8enc");
    reveal_strlit("vp8enc");
    reveal_strlit("vavp9enc");
    reveal_strlit("vavp9lpenc");
    reveal_strlit("v4l2vp9enc");
    reveal_strlit("vp9enc");
    reveal_strlit("vaav1enc");
    reveal_strlit("vaav1lpenc");
    reveal_strlit("nvav1enc");
    reveal_strlit("v4l2av1enc");
    reveal_strlit("svtav1enc");
    reveal_strlit("av1enc");
    match codec {
        VideoCodec::H264 => {
            lemma_va("vah264enc"@);
            lemma_va("vah264lpenc"@);
            lemma_nv("nvh264enc"@);
            lemma_v4l2("v4l2h264enc"@);
            lemma_software("x264enc"@);
        },
        VideoCodec::Vp8 => {
            lemma_va("vavp8enc"@);
            lemma_va("vavp8lpenc"@);
            lemma_v4l2("v4l2vp8enc"@);
            lemma_software("vp8enc"@);
        },
        VideoCodec::Vp9 => {
            lemma_va("vavp9enc"@);
            lemma_va("vavp9lpenc"@);
            lemma_v4l2("v4l2vp9enc"@);
            lemma_software("vp9enc"@);
        },
        VideoCodec::Av1 => {
            lemma_va("vaav1enc"@);
            lemma_va("vaav1lpenc"@);
            lemma_nv("nvav1enc"@);
            lemma_v4l2("v4l2av1enc"@);
            lemma_software("svtav1enc"@);
            lemma_software("av1enc"@);
        },
    }
}

proof fn lemma_va(name: Seq<char>)
    requires
        name.len() >= 4,
        name[0] == 'v',
        name[1] == 'a',
    ensures
        api_named(name) == Some(Api::Va),
{
    reveal_strlit("v4l2");
    reveal_strlit("va");
    assert(name.take(4)[1] != "v4l2"@[1]);
    assert(name.take(2) =~= "va"@);
}

proof fn lemma_nv(name: Seq<char>)
    requires
        name.len() >= 4,
        name[0] == 'n',
        name[1] == 'v',
    ensures
        api_named(name) == Some(Api::Nvenc),
{
    reveal_strlit("v4l2");
    reveal_strlit("va");
    reveal_strlit("nv");
    assert(name.take(4)[0] != "v4l2"@[0]);
    assert(name.take(2)[0] != "va"@[0]);
    assert(name.take(2) =~= "nv"@);
}

proof fn lemma_v4l2(name: Seq<char>)
    requires
        name.len() >= 4,
        name[0] == 'v',
        name[1] == '4',
        name[2] == 'l',
        name[3] == '2',
    ensures
        api_named(name) == Some(Api::V4l2),
{
    reveal_strlit("v4l2");
    assert(name.take(4) =~= "v4l2"@);
}

proof fn lemma_software(name: Seq<char>)
    requires
        name.len() >= 4,
        name[1] != 'a',
        name[1] != '4',
        name[0] != 'n',
    ensures
        api_named(name) is None,
{
    reveal_strlit("v4l2");
    reveal_strlit("va");
    reveal_strlit("nv");
    assert(name.take(4)[1] != "v4l2"@[1]);
    assert(name.take(2)[1] != "va"@[1]);
    assert(name.take(2)[0] != "nv"@[0]);
}

/// A receiver that lost the first key frame waits about two seconds for the
/// next, at any frame rate.
pub proof fn law_key_frames_come_every_two_seconds(fps: u32)
    requires
        0 < fps <= u32::MAX / 2,
    ensures
        key_interval(fps) == 2 * fps,
{
}

/// The codecs at a place in the order of preference are the available ones
/// that belong there.
proof fn lemma_codecs_at(available: Seq<(VideoCodec, bool)>, place: int, codec: VideoCodec)
    ensures
        codecs_at(available, place).contains(codec) <==> exists|hardware: bool|
            available.contains((codec, hardware)) && #[trigger] preference(codec, hardware)
                == place,
    decreases available.len(),
{
    if available.len() > 0 {
        let rest = available.drop_last();
        lemma_codecs_at(rest, place, codec);
        let (last, tier) = available.last();
        let before = codecs_at(rest, place);
        assert(available[available.len() - 1] == (last, tier));
        assert forall|hardware: bool| #[trigger] preference(codec, hardware) == place implies (
        available.contains((codec, hardware)) <==> rest.contains((codec, hardware)) || (
            (last, tier) == (codec, hardware))) by {
            if rest.contains((codec, hardware)) {
                let k = rest.index_of((codec, hardware));
                assert(available[k] == (codec, hardware));
            }
            if available.contains((codec, hardware)) && (last, tier) != (codec, hardware) {
                let k = available.index_of((codec, hardware));
                assert(rest[k] == (codec, hardware));
            }
        }
        if preference(last, tier) == place {
            assert(before.push(last)[before.len() as int] == last);
            assert(before.push(last).contains(codec) <==> before.contains(codec) || last == codec)
                by {
                if before.contains(codec) {
                    let k = before.index_of(codec);
                    assert(before.push(last)[k] == codec);
                }
                if before.push(last).contains(codec) && last != codec {
                    let k = before.push(last).index_of(codec);
                    assert(before[k] == codec);
                }
            }
        }
    } else {
        assert(!codecs_at(available, place).contains(codec));
    }
}

proof fn lemma_codecs_up_to(available: Seq<(VideoCodec, bool)>, places: int, codec: VideoCodec)
    requires
        0 <= places <= 8,
    ensures
        codecs_up_to(available, places).contains(codec) <==> exists|hardware: bool|
            available.contains((codec, hardware)) && #[trigger] preference(codec, hardware)
                < places,
    decreases places,
{
    if places > 0 {
        lemma_codecs_up_to(available, places - 1, codec);
        lemma_codecs_at(available, places - 1, codec);
        lemma_sum_contains(
            codecs_up_to(available, places - 1),
            codecs_at(available, places - 1),
            codec,
        );
        assert forall|hardware: bool| #[trigger] preference(codec, hardware) < places implies
            preference(codec, hardware) < places - 1 || preference(codec, hardware) == places
            - 1 by {}
    } else {
        assert(!codecs_up_to(available, places).contains(codec));
        assert(preference(codec, true) >= 0);
        assert(preference(codec, false) >= 0);
    }
}

proof fn lemma_sum_contains(a: Seq<VideoCodec>, b: Seq<VideoCodec>, codec: VideoCodec)
    ensures
        (a + b).contains(codec) <==> a.contains(codec) || b.contains(codec),
{
    if a.contains(codec) {
        let k = a.index_of(codec);
        assert((a + b)[k] == codec);
    }
    if b.contains(codec) {
        let k = b.index_of(codec);
        assert((a + b)[a.len() + k] == codec);
    }
    if (a + b).contains(codec) {
        let k = (a + b).index_of(codec);
        if k < a.len() {
            assert(a[k] == codec);
        } else {
            assert(b[k - a.len()] == codec);
        }
    }
}

/// Ranking offers every codec that can be encoded and no other, and starts with
/// exactly those that hardware encodes.
pub proof fn law_hardware_codecs_are_preferred(
    available: Seq<(VideoCodec, bool)>,
    codec: VideoCodec,
)
    ensures
        preferred(available).contains(codec) <==> available.contains((codec, true))
            || available.contains((codec, false)),
        codecs_up_to(available, 4).contains(codec) <==> available.contains((codec, true)),
        codecs_up_to(available, 4).len() <= preferred(available).len(),
        preferred(available).take(codecs_up_to(available, 4).len() as int) == codecs_up_to(
            available,
            4,
        ),
{
    lemma_codecs_up_to(available, 8, codec);
    lemma_codecs_up_to(available, 4, codec);
    assert(preference(codec, true) < 4);
    assert(4 <= preference(codec, false) < 8);
    let hardware = codecs_up_to(available, 4);
    reveal_with_fuel(codecs_up_to, 5);
    assert(preferred(available) =~= hardware + (codecs_at(available, 4) + codecs_at(available, 5)
        + codecs_at(available, 6) + codecs_at(available, 7)));
    assert(preferred(available).take(hardware.len() as int) =~= hardware);
}

/// A forced codec is the only one that is offered.
pub proof fn law_only_the_forced_codec_is_offered<F: Fn(&str, Probe) -> bool>(
    try_out: F,
    policy: EncodingPolicy,
    forced: VideoCodec,
    registry: &Registry,
    upto: int,
    available: Seq<(VideoCodec, bool)>,
    i: int,
)
    requires
        availability(try_out, policy, Some(forced), registry, upto, available),
        0 <= i < available.len(),
    ensures
        available[i].0 == forced,
    decreases upto,
{
    let codec = by_efficiency()[upto - 1];
    if !offerable(codec, Some(forced)) || availability(
        try_out,
        policy,
        Some(forced),
        registry,
        upto - 1,
        available,
    ) {
        law_only_the_forced_codec_is_offered(
            try_out,
            policy,
            forced,
            registry,
            upto - 1,
            available,
            i,
        );
    } else if i < available.len() - 1 {
        law_only_the_forced_codec_is_offered(
            try_out,
            policy,
            forced,
            registry,
            upto - 1,
            available.drop_last(),
            i,
        );
    }
}

/// Working hardware encoding needs no advice, whatever the machine is; and a
/// machine without silicon to install anything for gets none.
pub proof fn law_no_advice_where_none_helps(hardware: bool, gpus: Seq<Gpu>, plugin: bool)
    requires
        hardware || forall|i: int| 0 <= i < gpus.len() ==> gpus[i] == Gpu::Neither,
    ensures
        gap_text(hardware, gpus, plugin) == ""@,
{
}

/// VA-API is the reachable path on a hybrid machine, so its advice wins, in
/// whatever order the cards are listed.
pub proof fn law_va_api_advice_wins(gpus: Seq<Gpu>, plugin: bool)
    requires
        gpus.contains(Gpu::VaApi),
    ensures
        gap_text(false, gpus, plugin) == if plugin {
            "driver"@
        } else {
            "plugin"@
        },
{
}

/// Where a codec stands among those that are encoded alike, the best first.
pub open spec fn standing(codec: VideoCodec) -> int {
    match codec {
        VideoCodec::Av1 => 1,
        VideoCodec::Vp9 => 2,
        VideoCodec::H264 => 3,
        VideoCodec::Vp8 => 4,
    }
}

/// Whether a codec is to be offered no later than another: hardware before
/// software, and within each the better codec first.
pub open spec fn no_later(a: (VideoCodec, bool), b: (VideoCodec, bool)) -> bool {
    (a.1 && !b.1) || (a.1 == b.1 && standing(a.0) <= standing(b.0))
}

/// Whether `codecs` are the codecs of `ranked`, and that is the available ones,
/// each as often as it is available, in the order they are to be offered.
pub open spec fn is_ranking(
    available: Seq<(VideoCodec, bool)>,
    codecs: Seq<VideoCodec>,
    ranked: Seq<(VideoCodec, bool)>,
) -> bool {
    &&& ranked.to_multiset() == available.to_multiset()
    &&& codecs.len() == ranked.len()
    &&& forall|i: int| 0 <= i < codecs.len() ==> #[trigger] codecs[i] == ranked[i].0
    &&& forall|i: int, j: int| 0 <= i < j < ranked.len() ==> no_later(ranked[i], ranked[j])
}

/// The available codecs of a place in the order of preference, with how they are
/// encoded.
spec fn pairs_at(available: Seq<(VideoCodec, bool)>, place: int) -> Seq<(VideoCodec, bool)>
    decreases available.len(),
{
    if available.len() == 0 {
        Seq::empty()
    } else {
        let before = pairs_at(available.drop_last(), place);
        if preference(available.last().0, available.last().1) == place {
            before.push(available.last())
        } else {
            before
        }
    }
}

spec fn pairs_up_to(available: Seq<(VideoCodec, bool)>, places: int) -> Seq<(VideoCodec, bool)>
    decreases places,
{
    if places <= 0 {
        Seq::empty()
    } else {
        pairs_up_to(available, places - 1) + pairs_at(available, places - 1)
    }
}

proof fn lemma_pairs_at(available: Seq<(VideoCodec, bool)>, place: int)
    ensures
        pairs_at(available, place).len() == codecs_at(available, place).len(),
        forall|i: int|
            0 <= i < pairs_at(available, place).len() ==> {
                let pair = #[trigger] pairs_at(available, place)[i];
                pair.0 == codecs_at(available, place)[i] && preference(pair.0, pair.1) == place
            },
        forall|pair: (VideoCodec, bool)| #[trigger]
            pairs_at(available, place).to_multiset().count(pair) == if preference(pair.0, pair.1)
                == place {
                available.to_multiset().count(pair)
            } else {
                0
            },
    decreases available.len(),
{
    broadcast use vstd::seq_lib::group_to_multiset_ensures;

    if available.len() > 0 {
        let rest = available.drop_last();
        lemma_pairs_at(rest, place);
        assert(available =~= rest.push(available.last()));
    }
}

proof fn lemma_pairs_up_to(available: Seq<(VideoCodec, bool)>, places: int)
    requires
        0 <= places <= 8,
    ensures
        pairs_up_to(available, places).len() == codecs_up_to(available, places).len(),
        forall|i: int|
            0 <= i < pairs_up_to(available, places).len() ==> {
                let pair = #[trigger] pairs_up_to(available, places)[i];
                pair.0 == codecs_up_to(available, places)[i] && preference(pair.0, pair.1)
                    < places
            },
        forall|i: int, j: int|
            0 <= i < j < pairs_up_to(available, places).len() ==> no_later(
                #[trigger] pairs_up_to(available, places)[i],
                #[trigger] pairs_up_to(available, places)[j],
            ),
        forall|pair: (VideoCodec, bool)| #[trigger]
            pairs_up_to(available, places).to_multiset().count(pair) == if preference(
                pair.0,
                pair.1,
            ) < places {
                available.to_multiset().count(pair)
            } else {
                0
            },
    decreases places,
{
    broadcast use vstd::seq_lib::group_to_multiset_ensures;

    if places > 0 {
        lemma_pairs_up_to(available, places - 1);
        lemma_pairs_at(available, places - 1);
        let before = pairs_up_to(available, places - 1);
        let added = pairs_at(available, places - 1);
        vstd::seq_lib::lemma_multiset_commutative(before, added);
        let all = pairs_up_to(available, places);
        assert(all =~= before + added);
        assert forall|i: int, j: int| 0 <= i < j < all.len() implies no_later(
            #[trigger] all[i],
            #[trigger] all[j],
        ) by {
            if j >= before.len() {
                assert(all[j] == added[j - before.len()]);
                if i >= before.len() {
                    assert(all[i] == added[i - before.len()]);
                } else {
                    assert(all[i] == before[i]);
                }
            } else {
                assert(all[i] == before[i] && all[j] == before[j]);
            }
        }
        assert forall|i: int| 0 <= i < all.len() implies {
            let pair = #[trigger] all[i];
            pair.0 == codecs_up_to(available, places)[i] && preference(pair.0, pair.1) < places
        } by {
            if i < before.len() {
                assert(all[i] == before[i]);
            } else {
                assert(all[i] == added[i - before.len()]);
            }
        }
    } else {
        assert(pairs_up_to(available, 0) =~= Seq::empty());
        assert forall|pair: (VideoCodec, bool)| #[trigger] preference(pair.0, pair.1) >= 0 by {}
    }
}

/// Ranking puts the available codecs in the order they are to be offered: those
/// that hardware encodes before those that software does, and within each AV1,
/// VP9, H.264 and VP8. It leaves none out, adds none, and repeats none.
pub proof fn law_codecs_are_ranked(available: Vec<(VideoCodec, bool)>, codecs: Vec<VideoCodec>)
    requires
        call_ensures(rank_codecs, (&available,), codecs),
    ensures
        exists|ranked: Seq<(VideoCodec, bool)>| is_ranking(available@, codecs@, ranked),
{
    lemma_preferred_is_a_ranking(available@);
}

pub proof fn lemma_preferred_is_a_ranking(available: Seq<(VideoCodec, bool)>)
    ensures
        exists|ranked: Seq<(VideoCodec, bool)>|
            is_ranking(available, preferred(available), ranked),
{
    lemma_pairs_up_to(available, 8);
    let ranked = pairs_up_to(available, 8);
    assert(ranked.to_multiset() =~= available.to_multiset()) by {
        assert forall|pair: (VideoCodec, bool)| #[trigger] ranked.to_multiset().count(pair)
            == available.to_multiset().count(pair) by {
            assert(preference(pair.0, pair.1) < 8);
        }
    }
    assert(is_ranking(available, preferred(available), ranked));
}

/// Of two available codecs that are encoded alike, the better one comes first in
/// the ranking, and one that hardware encodes comes before one that it does not.
pub proof fn law_better_codecs_come_first(
    available: Vec<(VideoCodec, bool)>,
    codecs: Vec<VideoCodec>,
    a: (VideoCodec, bool),
    b: (VideoCodec, bool),
    i: int,
    j: int,
)
    requires
        call_ensures(rank_codecs, (&available,), codecs),
        0 <= i < codecs@.len(),
        0 <= j < codecs@.len(),
        codecs@[i] == a.0,
        codecs@[j] == b.0,
        available@.contains(a),
        available@.contains(b),
        a.0 != b.0,
        forall|k: int, l: int|
            0 <= k < l < available@.len() ==> available@[k].0 != available@[l].0,
        no_later(a, b),
    ensures
        i < j,
{
    law_codecs_are_ranked(available, codecs);
    let ranked = choose|ranked: Seq<(VideoCodec, bool)>|
        is_ranking(available@, codecs@, ranked);
    lemma_flag_is_kept(available@, ranked, i, a);
    lemma_flag_is_kept(available@, ranked, j, b);
    if j < i {
        assert(no_later(ranked[j], ranked[i]));
    }
}

proof fn lemma_flag_is_kept(
    available: Seq<(VideoCodec, bool)>,
    ranked: Seq<(VideoCodec, bool)>,
    i: int,
    pair: (VideoCodec, bool),
)
    requires
        ranked.to_multiset() == available.to_multiset(),
        0 <= i < ranked.len(),
        ranked[i].0 == pair.0,
        available.contains(pair),
        forall|k: int, l: int| 0 <= k < l < available.len() ==> available[k].0 != available[l].0,
    ensures
        ranked[i] == pair,
{
    broadcast use vstd::seq_lib::group_to_multiset_ensures;

    assert(ranked.contains(ranked[i]));
    assert(available.to_multiset().count(ranked[i]) > 0);
    assert(available.contains(ranked[i]));
    let k = available.index_of(ranked[i]);
    let l = available.index_of(pair);
    if k < l {
        assert(available[k].0 != available[l].0);
    } else if l < k {
        assert(available[l].0 != available[k].0);
    }
}

/// What trying out the codecs comes to: of the codecs that may be offered, all
/// of them or the forced one, each that has an encoder under the policy is
/// available, once, with how it is encoded; and no other is.
pub proof fn law_codecs_with_an_encoder_are_available<F: Fn(&str, Probe) -> bool>(
    try_out: F,
    policy: EncodingPolicy,
    forced: Option<VideoCodec>,
    registry: &Registry,
    available: Seq<(VideoCodec, bool)>,
    codec: VideoCodec,
)
    requires
        availability(try_out, policy, forced, registry, 4, available),
    ensures
        forall|i: int, j: int|
            0 <= i < j < available.len() ==> available[i].0 != available[j].0,
        forall|i: int|
            0 <= i < available.len() ==> (forced is None || forced == Some(
                (#[trigger] available[i]).0,
            )) && has_encoder(try_out, available[i].0, policy, registry, available[i].1),
        (forced is None || forced == Some(codec)) && !available.contains((codec, true))
            && !available.contains((codec, false)) ==> encoder_picked(
            try_out,
            codec,
            4_000_000,
            30,
            policy,
            registry,
            None,
        ),
{
    lemma_available(try_out, policy, forced, registry, 4, available, codec);
    assert(by_efficiency()[0] == VideoCodec::Av1 && by_efficiency()[1] == VideoCodec::Vp9);
    assert(by_efficiency()[2] == VideoCodec::H264 && by_efficiency()[3] == VideoCodec::Vp8);
    assert(exists|k: int| 0 <= k < 4 && #[trigger] by_efficiency()[k] == codec);
}

/// Whether an encoder may be had for a codec under a policy, in hardware or not,
/// at the bitrate and the frame rate of an offer.
pub open spec fn has_encoder<F: Fn(&str, Probe) -> bool>(
    try_out: F,
    codec: VideoCodec,
    policy: EncodingPolicy,
    registry: &Registry,
    hardware: bool,
) -> bool {
    exists|fragment: String|
        #[trigger] encoder_picked(
            try_out,
            codec,
            4_000_000,
            30,
            policy,
            registry,
            Some((fragment, hardware)),
        )
}

proof fn lemma_available<F: Fn(&str, Probe) -> bool>(
    try_out: F,
    policy: EncodingPolicy,
    forced: Option<VideoCodec>,
    registry: &Registry,
    upto: int,
    available: Seq<(VideoCodec, bool)>,
    codec: VideoCodec,
)
    requires
        0 <= upto <= 4,
        availability(try_out, policy, forced, registry, upto, available),
    ensures
        forall|i: int, j: int|
            0 <= i < j < available.len() ==> available[i].0 != available[j].0,
        forall|i: int|
            0 <= i < available.len() ==> (forced is None || forced == Some(
                (#[trigger] available[i]).0,
            )) && has_encoder(try_out, available[i].0, policy, registry, available[i].1),
        forall|i: int|
            0 <= i < available.len() ==> exists|k: int|
                0 <= k < upto && #[trigger] by_efficiency()[k] == (#[trigger] available[i]).0,
        (exists|k: int| 0 <= k < upto && #[trigger] by_efficiency()[k] == codec) && (forced is None
            || forced == Some(codec)) && !available.contains((codec, true))
            && !available.contains((codec, false)) ==> encoder_picked(
            try_out,
            codec,
            4_000_000,
            30,
            policy,
            registry,
            None,
        ),
    decreases upto,
{
    if upto > 0 {
        let last = by_efficiency()[upto - 1];
        assert(forall|k: int| 0 <= k < upto - 1 ==> #[trigger] by_efficiency()[k] != last);
        if availability(try_out, policy, forced, registry, upto - 1, available) && (!offerable(
            last,
            forced,
        ) || encoder_picked(
            try_out,
            last,
            OFFER_BITRATE_BPS,
            OFFER_FPS,
            policy,
            registry,
            None,
        )) {
            lemma_available(try_out, policy, forced, registry, upto - 1, available, codec);
        } else {
            let rest = available.drop_last();
            lemma_available(try_out, policy, forced, registry, upto - 1, rest, codec);
            assert forall|i: int, j: int| 0 <= i < j < available.len() implies available[i].0
                != available[j].0 by {
                assert(rest[i] == available[i]);
                if j < rest.len() {
                    assert(rest[j] == available[j]);
                }
            }
            assert forall|i: int| 0 <= i < available.len() implies exists|k: int|
                0 <= k < upto && #[trigger] by_efficiency()[k] == (#[trigger] available[i]).0 by {
                if i < rest.len() {
                    assert(rest[i] == available[i]);
                } else {
                    assert(by_efficiency()[upto - 1] == available[i].0);
                }
            }
            assert forall|i: int| 0 <= i < available.len() implies (forced is None || forced
                == Some((#[trigger] available[i]).0)) && has_encoder(
                try_out,
                available[i].0,
                policy,
                registry,
                available[i].1,
            ) by {
                if i < rest.len() {
                    assert(rest[i] == available[i]);
                }
            }
            if !available.contains((codec, true)) && !available.contains((codec, false)) {
                if rest.contains((codec, true)) {
                    let k = rest.index_of((codec, true));
                    assert(available[k] == (codec, true));
                }
                if rest.contains((codec, false)) {
                    let k = rest.index_of((codec, false));
                    assert(available[k] == (codec, false));
                }
                if codec == last {
                    assert(available[available.len() - 1] == (codec, available.last().1));
                }
            }
        }
    }
}

/// The codecs that are offered are a ranking of the available ones.
pub proof fn law_the_offer_ranks_what_is_available<F: Fn(&str, Probe) -> bool>(
    policy: EncodingPolicy,
    forced: Option<VideoCodec>,
    registry: &Registry,
    try_out: &F,
    codecs: Vec<VideoCodec>,
)
    requires
        call_ensures(available_video_codecs::<F>, (policy, forced, registry, try_out), codecs),
    ensures
        exists|available: Seq<(VideoCodec, bool)>, ranked: Seq<(VideoCodec, bool)>|
            #[trigger] availability(*try_out, policy, forced, registry, 4, available)
                && #[trigger] is_ranking(available, codecs@, ranked),
{
    let available = choose|available: Seq<(VideoCodec, bool)>|
        #[trigger] availability(*try_out, policy, forced, registry, 4, available) && codecs@
            == preferred(available);
    lemma_preferred_is_a_ranking(available);
    let ranked = choose|ranked: Seq<(VideoCodec, bool)>|
        is_ranking(available, preferred(available), ranked);
    assert(is_ranking(available, codecs@, ranked));
}

/// Whether an element's name says that hardware encodes, and by which interface.
pub open spec fn says(factory: Seq<char>, prefix: Seq<char>) -> bool {
    exists|rest: Seq<char>| factory == #[trigger] (prefix + rest)
}

/// The interface of an encoder is read off its name: `v4l2`, `va` and `nv` are
/// the beginnings that stand for one, and any other name is software.
pub proof fn law_interfaces_are_read_off_names(factory: &str, api: Option<Api>, hardware: bool)
    requires
        call_ensures(api_of, (factory,), api),
        call_ensures(is_hardware, (factory,), hardware),
    ensures
        api == Some(Api::V4l2) <==> says(factory@, "v4l2"@),
        api == Some(Api::Va) <==> says(factory@, "va"@),
        api == Some(Api::Nvenc) <==> says(factory@, "nv"@),
        hardware <==> says(factory@, "v4l2"@) || says(factory@, "va"@) || says(
            factory@,
            "nv"@,
        ),
{
    lemma_says(factory@, "v4l2"@);
    lemma_says(factory@, "va"@);
    lemma_says(factory@, "nv"@);
    reveal_strlit("v4l2");
    reveal_strlit("va");
    reveal_strlit("nv");
    if begins(factory@, "v4l2"@) {
        assert(factory@.take(4)[1] == '4' && factory@.take(4)[0] == 'v');
    }
    if begins(factory@, "va"@) {
        assert(factory@.take(2)[1] == 'a' && factory@.take(2)[0] == 'v');
    }
    if begins(factory@, "nv"@) {
        assert(factory@.take(2)[1] == 'v' && factory@.take(2)[0] == 'n');
    }
}

proof fn lemma_says(factory: Seq<char>, prefix: Seq<char>)
    ensures
        says(factory, prefix) <==> begins(factory, prefix),
{
    if begins(factory, prefix) {
        law_prefixes_come_off(factory, prefix, Seq::empty());
        assert(factory == prefix + factory.skip(prefix.len() as int));
    }
    if says(factory, prefix) {
        let rest = choose|rest: Seq<char>| factory == #[trigger] (prefix + rest);
        law_prefixes_come_off(factory, prefix, rest);
    }
}

/// Whether an installed element of a name takes a raw format.
pub open spec fn takes(registry: &Registry, name: Seq<char>, format: Seq<char>) -> bool {
    exists|i: int, j: int|
        0 <= i < registry.elements@.len() && 0 <= j < registry.elements@[i].formats@.len()
            && registry.elements@[i].name@ == name && (
        #[trigger] registry.elements@[i].formats@[j])@ == format
}

/// An encoder may be used when it is of the kind the user chose, and takes the
/// raw format the user chose.
pub proof fn law_choices_rule_encoders_out(
    factory: &str,
    policy: EncodingPolicy,
    registry: &Registry,
    may: bool,
)
    requires
        call_ensures(allowed, (factory, policy, registry), may),
    ensures
        may <==> {
            let va = says(factory@, "va"@);
            let nv = says(factory@, "nv"@);
            let v4l2 = says(factory@, "v4l2"@);
            &&& match policy.encoder {
                EncoderPolicy::Auto => true,
                EncoderPolicy::Hardware => va || nv || v4l2,
                EncoderPolicy::Software => !va && !nv && !v4l2,
                EncoderPolicy::VaApi => va,
                EncoderPolicy::Nvenc => nv,
                EncoderPolicy::V4l2 => v4l2,
            }
            &&& match policy.format {
                FormatPolicy::Auto => true,
                FormatPolicy::Nv12 => takes(registry, factory@, "NV12"@),
                FormatPolicy::I420 => takes(registry, factory@, "I420"@),
            }
        },
{
    lemma_allowed(factory@, policy, registry);
}

proof fn lemma_allowed(factory: Seq<char>, policy: EncodingPolicy, registry: &Registry)
    ensures
        is_allowed(factory, policy, registry) <==> {
            let va = says(factory, "va"@);
            let nv = says(factory, "nv"@);
            let v4l2 = says(factory, "v4l2"@);
            &&& match policy.encoder {
                EncoderPolicy::Auto => true,
                EncoderPolicy::Hardware => va || nv || v4l2,
                EncoderPolicy::Software => !va && !nv && !v4l2,
                EncoderPolicy::VaApi => va,
                EncoderPolicy::Nvenc => nv,
                EncoderPolicy::V4l2 => v4l2,
            }
            &&& match policy.format {
                FormatPolicy::Auto => true,
                FormatPolicy::Nv12 => takes(registry, factory, "NV12"@),
                FormatPolicy::I420 => takes(registry, factory, "I420"@),
            }
        },
{
    lemma_says(factory, "v4l2"@);
    lemma_says(factory, "va"@);
    lemma_says(factory, "nv"@);
    reveal_strlit("v4l2");
    reveal_strlit("va");
    reveal_strlit("nv");
    if begins(factory, "v4l2"@) {
        assert(factory.take(4)[1] == '4' && factory.take(4)[0] == 'v');
    }
    if begins(factory, "va"@) {
        assert(factory.take(2)[1] == 'a' && factory.take(2)[0] == 'v');
    }
    if begins(factory, "nv"@) {
        assert(factory.take(2)[1] == 'v' && factory.take(2)[0] == 'n');
    }
    lemma_takes(registry, factory, "NV12"@);
    lemma_takes(registry, factory, "I420"@);
}

proof fn lemma_takes(registry: &Registry, name: Seq<char>, format: Seq<char>)
    ensures
        takes(registry, name, format) <==> registry.accepts(name, format),
{
    if registry.accepts(name, format) {
        let i = choose|i: int|
            0 <= i < registry.elements@.len() && (#[trigger] registry.elements@[i]).name@ == name
                && holds(registry.elements@[i].formats@, format);
        let j = choose|j: int|
            0 <= j < registry.elements@[i].formats@.len() && (
            #[trigger] registry.elements@[i].formats@[j])@ == format;
        assert(registry.elements@[i].formats@[j]@ == format);
    }
    if takes(registry, name, format) {
        let (i, j) = choose|i: int, j: int|
            0 <= i < registry.elements@.len() && 0 <= j < registry.elements@[i].formats@.len()
                && registry.elements@[i].name@ == name && (
            #[trigger] registry.elements@[i].formats@[j])@ == format;
        assert(holds(registry.elements@[i].formats@, format));
        assert(registry.elements@[i].name@ == name);
    }
}

/// The encoder that is taken for a codec is the first of its candidates that the
/// user's choices allow and that proves usable: hardware by opening its device,
/// software by parsing. It comes with the bitrate and the frame rate asked for,
/// and with whether it is hardware. None is taken only when every candidate that
/// is allowed has proved unusable.
pub proof fn law_the_first_usable_encoder_is_taken<F: Fn(&str, Probe) -> bool>(
    codec: VideoCodec,
    bitrate_bps: u32,
    fps: u32,
    policy: EncodingPolicy,
    registry: &Registry,
    try_out: &F,
    picked: Option<(String, bool)>,
)
    requires
        call_ensures(
            video_encoder::<F>,
            (codec, bitrate_bps, fps, policy, registry, try_out),
            picked,
        ),
    ensures
        match picked {
            Some((fragment, hardware)) => exists|i: int|
                #![trigger factory_names(codec)[i]]
                {
                    let factory = factory_names(codec)[i];
                    &&& 0 <= i < factory_names(codec).len()
                    &&& is_allowed(factory, policy, registry)
                    &&& fragment@ == fragment_text(factory, bitrate_bps, fps)
                    &&& hardware <==> says(factory, "v4l2"@) || says(factory, "va"@) || says(
                        factory,
                        "nv"@,
                    )
                    &&& was_tried(*try_out, fragment@, hardware, true)
                    &&& forall|k: int|
                        0 <= k < i ==> is_unusable(
                            *try_out,
                            #[trigger] factory_names(codec)[k],
                            bitrate_bps,
                            fps,
                            policy,
                            registry,
                        )
                },
            None => forall|k: int|
                0 <= k < factory_names(codec).len() ==> is_unusable(
                    *try_out,
                    #[trigger] factory_names(codec)[k],
                    bitrate_bps,
                    fps,
                    policy,
                    registry,
                ),
        },
{
    assert forall|k: int|
        0 <= k < factory_names(codec).len() && (is_allowed(
            #[trigger] factory_names(codec)[k],
            policy,
            registry,
        ) ==> candidate_probed(*try_out, codec, bitrate_bps, fps, k, false)) implies is_unusable(
        *try_out,
        factory_names(codec)[k],
        bitrate_bps,
        fps,
        policy,
        registry,
    ) by {
        lemma_hardware_names(factory_names(codec)[k]);
    }
    if let Some((fragment, hardware)) = picked {
        let i = choose|i: int|
            #![trigger factory_names(codec)[i]]
            first_usable(*try_out, codec, bitrate_bps, fps, policy, registry, i) && fragment@
                == fragment_text(factory_names(codec)[i], bitrate_bps, fps) && hardware
                == (api_named(factory_names(codec)[i]) is Some);
        let factory = factory_names(codec)[i];
        lemma_hardware_names(factory);
        assert(was_tried(*try_out, fragment@, hardware, true));
        assert forall|k: int| 0 <= k < i implies is_unusable(
            *try_out,
            #[trigger] factory_names(codec)[k],
            bitrate_bps,
            fps,
            policy,
            registry,
        ) by {}
    }
}

proof fn lemma_hardware_names(factory: Seq<char>)
    ensures
        api_named(factory) is Some <==> says(factory, "v4l2"@) || says(factory, "va"@) || says(
            factory,
            "nv"@,
        ),
{
    lemma_says(factory, "v4l2"@);
    lemma_says(factory, "va"@);
    lemma_says(factory, "nv"@);
}

/// Whether trying out a fragment, by opening its device or only by parsing it,
/// may have come out as `usable`.
pub open spec fn was_tried<F: Fn(&str, Probe) -> bool>(
    try_out: F,
    fragment: Seq<char>,
    open: bool,
    usable: bool,
) -> bool {
    if open {
        exists|text: &str|
            text@ == fragment && #[trigger] call_ensures(try_out, (text, Probe::Opens), usable)
    } else {
        exists|text: &str|
            text@ == fragment && #[trigger] call_ensures(try_out, (text, Probe::Parses), usable)
    }
}

/// Whether an encoder is out of the question: the user's choices rule it out, or
/// it was tried out in vain.
pub open spec fn is_unusable<F: Fn(&str, Probe) -> bool>(
    try_out: F,
    factory: Seq<char>,
    bitrate_bps: u32,
    fps: u32,
    policy: EncodingPolicy,
    registry: &Registry,
) -> bool {
    ||| !is_allowed(factory, policy, registry)
    ||| was_tried(
        try_out,
        fragment_text(factory, bitrate_bps, fps),
        says(factory, "v4l2"@) || says(factory, "va"@) || says(factory, "nv"@),
        false,
    )
}

/// The candidates for a codec: VA-API, its low-power variant, NVENC where it
/// encodes the codec, V4L2, and then software, of which AV1 has two.
pub proof fn law_candidates_come_hardware_first(codec: VideoCodec, names: Vec<&'static str>)
    requires
        call_ensures(factories, (codec,), names),
    ensures
        texts(names@) == match codec {
            VideoCodec::H264 => seq![
                "vah264enc"@,
                "vah264lpenc"@,
                "nvh264enc"@,
                "v4l2h264enc"@,
                "x264enc"@,
            ],
            VideoCodec::Vp8 => seq!["vavp8enc"@, "vavp8lpenc"@, "v4l2vp8enc"@, "vp8enc"@],
            VideoCodec::Vp9 => seq!["vavp9enc"@, "vavp9lpenc"@, "v4l2vp9enc"@, "vp9enc"@],
            VideoCodec::Av1 => seq![
                "vaav1enc"@,
                "vaav1lpenc"@,
                "nvav1enc"@,
                "v4l2av1enc"@,
                "svtav1enc"@,
                "av1enc"@,
            ],
        },
{
}

/// The codecs go by their names in an offer, and the preferences by theirs;
/// anything else is no codec, or an automatic choice.
pub proof fn law_choices_go_by_their_names(
    codec: VideoCodec,
    name: &'static str,
    text: &str,
    named: Option<VideoCodec>,
    encoder: EncoderPolicy,
    format: FormatPolicy,
    caps: &'static str,
)
    requires
        call_ensures(VideoCodec::codec_name, (codec,), name),
        call_ensures(VideoCodec::parse, (text,), named),
        call_ensures(EncoderPolicy::parse, (text,), encoder),
        call_ensures(FormatPolicy::parse, (text,), format),
        call_ensures(FormatPolicy::caps_format, (format,), caps),
    ensures
        name@ == match codec {
            VideoCodec::Vp8 => "vp8"@,
            VideoCodec::Vp9 => "vp9"@,
            VideoCodec::Av1 => "av1"@,
            VideoCodec::H264 => "h264"@,
        },
        named == Some(codec) <==> text@ == name@,
        encoder is Hardware <==> text@ == "hardware"@,
        encoder is Software <==> text@ == "software"@,
        encoder is VaApi <==> text@ == "vaapi"@,
        encoder is Nvenc <==> text@ == "nvenc"@,
        encoder is V4l2 <==> text@ == "v4l2"@,
        format is Nv12 <==> text@ == "nv12"@,
        format is I420 <==> text@ == "i420"@,
        caps@ == match format {
            FormatPolicy::Nv12 => "NV12"@,
            FormatPolicy::I420 => "I420"@,
            FormatPolicy::Auto => "{NV12,I420}"@,
        },
{
    law_codec_names_parse_back(codec, text@);
    reveal_strlit("hardware");
    reveal_strlit("software");
    reveal_strlit("vaapi");
    reveal_strlit("nvenc");
    reveal_strlit("v4l2");
    reveal_strlit("nv12");
    reveal_strlit("i420");
    assert("hardware"@[0] != "software"@[0]);
    assert("vaapi"@[0] != "nvenc"@[0]);
    assert("nv12"@[0] != "i420"@[0]);
    assert("v4l2"@.len() == 4 && "vaapi"@.len() == 5 && "hardware"@.len() == 8);
}

/// What a key is set to in a text, with what ends it.
pub open spec fn sets(text: Seq<char>, key: Seq<char>, value: nat, end: char) -> bool {
    occurs(text, key + decimal(value) + seq![end])
}

proof fn lemma_sets(
    text: Seq<char>,
    before: Seq<char>,
    ahead: Seq<char>,
    key: Seq<char>,
    value: nat,
    after: Seq<char>,
    end: char,
)
    requires
        text == before + ahead + decimal(value) + after,
        key.len() <= ahead.len(),
        ahead.skip(ahead.len() - key.len()) == key,
        after.len() > 0,
        after[0] == end,
    ensures
        sets(text, key, value, end),
{
    let start = ahead.take(ahead.len() - key.len());
    assert(ahead =~= start + key);
    assert(after =~= seq![end] + after.skip(1));
    let part = key + decimal(value) + seq![end];
    assert(text =~= (before + start) + part + after.skip(1));
}

/// The fragment of an encoder carries the bitrate that is asked for, in bits per
/// second where the encoder counts them and in kilobits where it counts those,
/// and, where one can be set, a key frame every two seconds.
pub proof fn law_fragments_carry_their_settings(
    factory: &str,
    bitrate_bps: u32,
    fps: u32,
    fragment: String,
    kbps: nat,
    every: nat,
)
    requires
        call_ensures(launch_for, (factory, bitrate_bps, fps), fragment),
        1_000 <= bitrate_bps,
        1_000 * kbps <= bitrate_bps < 1_000 * kbps + 1_000,
        0 < fps <= 0x7fff_ffff,
        every == 2 * fps,
    ensures
        factory@ == "vp8enc"@ || factory@ == "vp9enc"@ ==> sets(
            fragment@,
            " target-bitrate="@,
            bitrate_bps as nat,
            ' ',
        ) && sets(fragment@, " keyframe-max-dist="@, every, ' '),
        factory@ == "av1enc"@ ==> sets(fragment@, " target-bitrate="@, kbps, ' ') && sets(
            fragment@,
            " keyframe-max-dist="@,
            every,
            ' ',
        ),
        factory@ == "svtav1enc"@ ==> sets(fragment@, " target-bitrate="@, kbps, ' ') && occurs(
            fragment@,
            " intra-period-length="@ + decimal(every),
        ),
        factory@ == "x264enc"@ ==> sets(fragment@, " bitrate="@, kbps, ' ') && sets(
            fragment@,
            " key-int-max="@,
            every,
            ' ',
        ),
        says(factory@, "va"@) ==> sets(fragment@, " bitrate="@, kbps, ' '),
        says(factory@, "nv"@) ==> sets(fragment@, " bitrate="@, kbps, ' '),
        says(factory@, "v4l2"@) ==> sets(
            fragment@,
            "video_bitrate="@,
            bitrate_bps as nat,
            ',',
        ) && sets(fragment@, "video_gop_size="@, every, '"'),
{
    let name = factory@ + " name=venc"@;
    let bps = decimal(bitrate_bps as nat);
    let text = fragment@;
    assert(kbps == kilobits(bitrate_bps));
    assert(every == key_interval(fps));
    reveal_strlit(" target-bitrate=");
    reveal_strlit(" keyframe-max-dist=");
    reveal_strlit(" bitrate=");
    lemma_named_encoders(factory@);
    if factory@ == "vp8enc"@ || factory@ == "vp9enc"@ {
        let ahead = " deadline=1 cpu-used=8 end-usage=cbr target-bitrate="@;
        let rest = " lag-in-frames=0 error-resilient=default threads=4"@;
        reveal_strlit(" deadline=1 cpu-used=8 end-usage=cbr target-bitrate=");
        reveal_strlit(" lag-in-frames=0 error-resilient=default threads=4");
        assert(ahead.skip(ahead.len() - 16) =~= " target-bitrate="@);
        let key = " keyframe-max-dist="@;
        let tail = key + decimal(every) + rest;
        assert(text =~= name + ahead + bps + tail);
        lemma_sets(text, name, ahead, " target-bitrate="@, bitrate_bps as nat, tail, ' ');
        assert(key.skip(0) =~= key);
        assert(text =~= (name + ahead + bps) + key + decimal(every) + rest);
        lemma_sets(text, name + ahead + bps, key, key, every, rest, ' ');
    } else if factory@ == "svtav1enc"@ {
        let ahead = " preset=12 target-bitrate="@;
        reveal_strlit(" preset=12 target-bitrate=");
        reveal_strlit(" intra-period-length=");
        assert(ahead.skip(ahead.len() - 16) =~= " target-bitrate="@);
        let tail = " intra-period-length="@ + decimal(every);
        assert(text =~= name + ahead + decimal(kbps) + tail);
        lemma_sets(text, name, ahead, " target-bitrate="@, kbps, tail, ' ');
        assert(text =~= (name + ahead + decimal(kbps)) + tail + Seq::empty());
    } else if factory@ == "av1enc"@ {
        let ahead = " usage-profile=realtime end-usage=cbr target-bitrate="@;
        let between = " cpu-used=9 lag-in-frames=0 keyframe-max-dist="@;
        let rest = " threads=4"@;
        reveal_strlit(" usage-profile=realtime end-usage=cbr target-bitrate=");
        reveal_strlit(" cpu-used=9 lag-in-frames=0 keyframe-max-dist=");
        reveal_strlit(" threads=4");
        assert(ahead.skip(ahead.len() - 16) =~= " target-bitrate="@);
        assert(between.skip(between.len() - 19) =~= " keyframe-max-dist="@);
        let tail = between + decimal(every) + rest;
        assert(text =~= name + ahead + decimal(kbps) + tail);
        lemma_sets(text, name, ahead, " target-bitrate="@, kbps, tail, ' ');
        assert(text =~= (name + ahead + decimal(kbps)) + between + decimal(every) + rest);
        lemma_sets(
            text,
            name + ahead + decimal(kbps),
            between,
            " keyframe-max-dist="@,
            every,
            rest,
            ' ',
        );
    } else if factory@ == "x264enc"@ {
        let ahead = " tune=zerolatency speed-preset=veryfast bitrate="@;
        let key = " key-int-max="@;
        let rest = " bframes=0"@;
        reveal_strlit(" tune=zerolatency speed-preset=veryfast bitrate=");
        reveal_strlit(" key-int-max=");
        reveal_strlit(" bframes=0");
        assert(ahead.skip(ahead.len() - 9) =~= " bitrate="@);
        assert(key.skip(0) =~= key);
        let tail = key + decimal(every) + rest;
        assert(text =~= name + ahead + decimal(kbps) + tail);
        lemma_sets(text, name, ahead, " bitrate="@, kbps, tail, ' ');
        assert(text =~= (name + ahead + decimal(kbps)) + key + decimal(every) + rest);
        lemma_sets(text, name + ahead + decimal(kbps), key, key, every, rest, ' ');
    } else if begins(factory@, "va"@) {
        let key = " bitrate="@;
        reveal_strlit(" rate-control=cbr");
        assert(key.skip(0) =~= key);
        assert(text =~= name + key + decimal(kbps) + " rate-control=cbr"@);
        lemma_sets(text, name, key, key, kbps, " rate-control=cbr"@, ' ');
    } else if begins(factory@, "nv"@) {
        let key = " bitrate="@;
        reveal_strlit(" rc-mode=cbr");
        assert(key.skip(0) =~= key);
        assert(text =~= name + key + decimal(kbps) + " rc-mode=cbr"@);
        lemma_sets(text, name, key, key, kbps, " rc-mode=cbr"@, ' ');
    } else if begins(factory@, "v4l2"@) {
        let ahead = " extra-controls=\"controls,video_bitrate="@;
        let between = ",video_gop_size="@;
        reveal_strlit(" extra-controls=\"controls,video_bitrate=");
        reveal_strlit(",video_gop_size=");
        reveal_strlit("video_bitrate=");
        reveal_strlit("video_gop_size=");
        reveal_strlit("\"");
        assert(ahead.skip(ahead.len() - 14) =~= "video_bitrate="@);
        assert(between.skip(between.len() - 15) =~= "video_gop_size="@);
        let tail = between + decimal(every) + "\""@;
        assert(text =~= name + ahead + bps + tail);
        lemma_sets(text, name, ahead, "video_bitrate="@, bitrate_bps as nat, tail, ',');
        assert(text =~= (name + ahead + bps) + between + decimal(every) + "\""@);
        lemma_sets(
            text,
            name + ahead + bps,
            between,
            "video_gop_size="@,
            every,
            "\""@,
            '"',
        );
    }
}

/// Names of hardware encoders are not those of software ones, nor of each other.
pub proof fn lemma_named_encoders(factory: Seq<char>)
    ensures
        says(factory, "va"@) <==> begins(factory, "va"@),
        says(factory, "nv"@) <==> begins(factory, "nv"@),
        says(factory, "v4l2"@) <==> begins(factory, "v4l2"@),
        begins(factory, "va"@) || begins(factory, "nv"@) || begins(factory, "v4l2"@) ==> factory
            != "vp8enc"@ && factory != "vp9enc"@ && factory != "svtav1enc"@ && factory
            != "av1enc"@ && factory != "x264enc"@,
        begins(factory, "va"@) ==> !begins(factory, "nv"@) && !begins(factory, "v4l2"@),
        begins(factory, "nv"@) ==> !begins(factory, "v4l2"@),
        "vp8enc"@ != "svtav1enc"@ && "vp8enc"@ != "av1enc"@ && "vp8enc"@ != "x264enc"@,
        "vp9enc"@ != "svtav1enc"@ && "vp9enc"@ != "av1enc"@ && "vp9enc"@ != "x264enc"@,
        "svtav1enc"@ != "av1enc"@ && "svtav1enc"@ != "x264enc"@ && "av1enc"@ != "x264enc"@,
{
    lemma_says(factory, "v4l2"@);
    lemma_says(factory, "va"@);
    lemma_says(factory, "nv"@);
    reveal_strlit("v4l2");
    reveal_strlit("va");
    reveal_strlit("nv");
    reveal_strlit("vp8enc");
    reveal_strlit("vp9enc");
    reveal_strlit("svtav1enc");
    reveal_strlit("av1enc");
    reveal_strlit("x264enc");
    assert("vp8enc"@[0] == 'v' && "vp9enc"@[0] == 'v' && "svtav1enc"@[0] == 's');
    assert("av1enc"@[0] == 'a' && "x264enc"@[0] == 'x');
    if begins(factory, "va"@) {
        assert(factory.take(2)[0] == 'v' && factory.take(2)[1] == 'a');
        assert(factory[0] == 'v' && factory[1] == 'a');
    }
    if begins(factory, "nv"@) {
        assert(factory.take(2)[0] == 'n' && factory.take(2)[1] == 'v');
        assert(factory[0] == 'n' && factory[1] == 'v');
    }
    if begins(factory, "v4l2"@) {
        assert(factory.take(4)[0] == 'v' && factory.take(4)[1] == '4');
        assert(factory[0] == 'v' && factory[1] == '4');
    }
}

/// Whether an element of this name encodes in hardware.
pub open spec fn is_hardware_element(name: Seq<char>) -> bool {
    ||| name == "vah264enc"@
    ||| name == "vah264lpenc"@
    ||| name == "nvh264enc"@
    ||| name == "v4l2h264enc"@
    ||| name == "vavp8enc"@
    ||| name == "vavp8lpenc"@
    ||| name == "v4l2vp8enc"@
    ||| name == "vavp9enc"@
    ||| name == "vavp9lpenc"@
    ||| name == "v4l2vp9enc"@
    ||| name == "vaav1enc"@
    ||| name == "vaav1lpenc"@
    ||| name == "nvav1enc"@
    ||| name == "v4l2av1enc"@
}

proof fn lemma_hardware_elements(name: Seq<char>)
    requires
        is_hardware_element(name),
    ensures
        api_named(name) is Some,
        exists|codec: VideoCodec, i: int|
            0 <= i < factory_names(codec).len() && #[trigger] factory_names(codec)[i] == name,
{
    reveal_strlit("va");
    reveal_strlit("nv");
    reveal_strlit("v4l2");
    reveal_strlit("vah264enc");
    reveal_strlit("vah264lpenc");
    reveal_strlit("nvh264enc");
    reveal_strlit("v4l2h264enc");
    reveal_strlit("vavp8enc");
    reveal_strlit("vavp8lpenc");
    reveal_strlit("v4l2vp8enc");
    reveal_strlit("vavp9enc");
    reveal_strlit("vavp9lpenc");
    reveal_strlit("v4l2vp9enc");
    reveal_strlit("vaav1enc");
    reveal_strlit("vaav1lpenc");
    reveal_strlit("nvav1enc");
    reveal_strlit("v4l2av1enc");
    assert("vah264enc"@.take(2) =~= "va"@);
    assert("vah264lpenc"@.take(2) =~= "va"@);
    assert("nvh264enc"@.take(2) =~= "nv"@);
    assert("v4l2h264enc"@.take(4) =~= "v4l2"@);
    assert("vavp8enc"@.take(2) =~= "va"@);
    assert("vavp8lpenc"@.take(2) =~= "va"@);
    assert("v4l2vp8enc"@.take(4) =~= "v4l2"@);
    assert("vavp9enc"@.take(2) =~= "va"@);
    assert("vavp9lpenc"@.take(2) =~= "va"@);
    assert("v4l2vp9enc"@.take(4) =~= "v4l2"@);
    assert("vaav1enc"@.take(2) =~= "va"@);
    assert("vaav1lpenc"@.take(2) =~= "va"@);
    assert("nvav1enc"@.take(2) =~= "nv"@);
    assert("v4l2av1enc"@.take(4) =~= "v4l2"@);
    let h264 = factory_names(VideoCodec::H264);
    let vp8 = factory_names(VideoCodec::Vp8);
    let vp9 = factory_names(VideoCodec::Vp9);
    let av1 = factory_names(VideoCodec::Av1);
    assert(h264[0] == "vah264enc"@ && h264[1] == "vah264lpenc"@ && h264[2] == "nvh264enc"@
        && h264[3] == "v4l2h264enc"@);
    assert(vp8[0] == "vavp8enc"@ && vp8[1] == "vavp8lpenc"@ && vp8[2] == "v4l2vp8enc"@);
    assert(vp9[0] == "vavp9enc"@ && vp9[1] == "vavp9lpenc"@ && vp9[2] == "v4l2vp9enc"@);
    assert(av1[0] == "vaav1enc"@ && av1[1] == "vaav1lpenc"@ && av1[2] == "nvav1enc"@ && av1[3]
        == "v4l2av1enc"@);
}

/// Hardware encoding is there as soon as one of the elements that encode in
/// hardware is installed, and not without one.
pub proof fn law_hardware_is_found_by_its_elements(registry: &Registry, available: bool)
    requires
        call_ensures(hardware_encoder_available, (registry,), available),
    ensures
        available <==> exists|i: int|
            0 <= i < registry.elements@.len() && is_hardware_element(
                (#[trigger] registry.elements@[i]).name@,
            ),
{
    if exists|i: int|
        0 <= i < registry.elements@.len() && is_hardware_element(
            (#[trigger] registry.elements@[i]).name@,
        ) {
        let i = choose|i: int|
            0 <= i < registry.elements@.len() && is_hardware_element(
                (#[trigger] registry.elements@[i]).name@,
            );
        let name = registry.elements@[i].name@;
        lemma_hardware_elements(name);
        let (codec, k) = choose|codec: VideoCodec, k: int|
            0 <= k < factory_names(codec).len() && #[trigger] factory_names(codec)[k] == name;
        assert(registry.has(factory_names(codec)[k]));
    }
    if available {
        let (codec, k) = choose|codec: VideoCodec, k: int|
            0 <= k < factory_names(codec).len() && api_named(
                #[trigger] factory_names(codec)[k],
            ) is Some && registry.has(factory_names(codec)[k]);
        let name = factory_names(codec)[k];
        lemma_named_encoders(name);
        let i = choose|i: int|
            0 <= i < registry.elements@.len() && (#[trigger] registry.elements@[i]).name@ == name;
        assert(is_hardware_element(registry.elements@[i].name@));
    }
}

/// The drivers of Intel and AMD cards lead to VA-API, those of NVIDIA cards to
/// NVENC, and every other driver to neither.
pub proof fn law_drivers_stand_for_cards(driver: &str, gpu: Gpu)
    requires
        call_ensures(gpu_class, (driver,), gpu),
    ensures
        gpu == Gpu::VaApi <==> driver@ == "i915"@ || driver@ == "xe"@ || driver@ == "amdgpu"@
            || driver@ == "radeon"@,
        gpu == Gpu::Nvenc <==> driver@ == "nvidia"@ || driver@ == "nvidia-drm"@ || driver@
            == "nouveau"@,
{
    reveal_strlit("i915");
    reveal_strlit("xe");
    reveal_strlit("amdgpu");
    reveal_strlit("radeon");
    reveal_strlit("nvidia");
    reveal_strlit("nvidia-drm");
    reveal_strlit("nouveau");
    assert("i915"@[0] == 'i' && "xe"@[0] == 'x' && "amdgpu"@[0] == 'a' && "radeon"@[0] == 'r');
    assert("nvidia"@[0] == 'n' && "nvidia-drm"@[0] == 'n' && "nouveau"@[0] == 'n');
}

proof fn lemma_value_after(lines: Seq<Seq<char>>, key: Seq<char>, at: int)
    requires
        0 <= at <= lines.len(),
        forall|i: int| 0 <= i < at ==> !begins(#[trigger] lines[i], key),
        at < lines.len() ==> begins(lines[at], key),
    ensures
        value_after(lines, key) == if at < lines.len() {
            Some(lines[at].skip(key.len() as int))
        } else {
            None
        },
    decreases lines.len(),
{
    if lines.len() > 0 && at > 0 {
        let rest = lines.skip(1);
        assert(!begins(lines[0], key));
        assert forall|i: int| 0 <= i < at - 1 implies !begins(#[trigger] rest[i], key) by {
            assert(rest[i] == lines[i + 1]);
        }
        lemma_value_after(rest, key, at - 1);
    }
}

/// A render node's driver is the one that the first `DRIVER=` line of its file
/// names, without the white space around it; where that names none, or there is
/// no such line, it is the one that its link points at.
pub proof fn law_drivers_are_named_by_the_first_line(
    uevent: &str,
    driver_link: Option<String>,
    driver: Option<String>,
    all: Vec<&str>,
    at: int,
    value: &str,
    name: &str,
)
    requires
        call_ensures(node_driver, (uevent, &driver_link), driver),
        call_ensures(lines, (uevent,), all),
        0 <= at <= all@.len(),
        forall|i: int| 0 <= i < at ==> !says(#[trigger] all@[i]@, "DRIVER="@),
        at < all@.len() ==> all@[at]@ == "DRIVER="@ + value@,
        call_ensures(trim, (value,), name),
    ensures
        at < all@.len() && name@.len() > 0 ==> (driver matches Some(found) && found@ == name@),
        at == all@.len() || name@.len() == 0 ==> {
            &&& driver is Some <==> driver_link is Some
            &&& driver matches Some(found) ==> found@ == driver_link->Some_0@
        },
{
    let key = "DRIVER="@;
    let told = texts(all@);
    assert forall|i: int| 0 <= i < at implies !begins(#[trigger] told[i], key) by {
        assert(told[i] == all@[i]@);
        lemma_says(told[i], key);
    }
    if at < all@.len() {
        assert(told[at] == all@[at]@);
        law_prefixes_come_off(told[at], key, value@);
        assert(told[at].skip(key.len() as int) =~= value@);
    }
    lemma_value_after(told, key, at);
    assert(text_in(driver_link) is Some <==> driver_link is Some);
}

/// The drivers that are told are those behind the render nodes, one for each
/// that has one, in their order; other entries are passed over.
pub proof fn law_render_nodes_tell_their_drivers(
    nodes: Vec<DrmNode>,
    more: Vec<DrmNode>,
    node: DrmNode,
    uevent: &str,
    driver: Option<String>,
    before: Vec<String>,
    after: Vec<String>,
)
    requires
        more@ == nodes@.push(node),
        uevent@ == node.uevent@,
        call_ensures(node_driver, (uevent, &node.driver_link), driver),
        call_ensures(render_node_drivers, (&nodes,), before),
        call_ensures(render_node_drivers, (&more,), after),
    ensures
        nodes@.len() == 0 ==> before@.len() == 0,
        says(node.name@, "renderD"@) && driver is Some ==> string_texts(after@) == string_texts(
            before@,
        ).push(driver->Some_0@),
        !(says(node.name@, "renderD"@) && driver is Some) ==> string_texts(after@)
            == string_texts(before@),
{
    lemma_says(node.name@, "renderD"@);
    assert(more@.drop_last() =~= nodes@);
    assert(more@.last() == node);
    assert(string_texts(before@).len() == before@.len());
}

/// A render node is told by the beginning of its name.
pub proof fn law_render_nodes_are_told_by_name(name: &str, is: bool)
    requires
        call_ensures(is_render_node, (name,), is),
    ensures
        is <==> says(name@, "renderD"@),
{
    lemma_says(name@, "renderD"@);
}

/// The package is that of the first distribution that is known: Arch, Debian and
/// its like, Fedora and its like, or SUSE. Where none is known no package is
/// named.
pub proof fn law_the_first_known_distribution_names_the_package(
    ids: &[&str],
    package: &'static str,
    at: int,
)
    requires
        call_ensures(va_package_for, (ids,), package),
        0 <= at <= ids@.len(),
        forall|i: int| 0 <= i < at ==> !is_known_distribution(#[trigger] ids@[i]@),
        at < ids@.len() ==> is_known_distribution(ids@[at]@),
    ensures
        at == ids@.len() ==> package@.len() == 0,
        at < ids@.len() && ids@[at]@ == "arch"@ ==> package@ == "gst-plugin-va"@,
        at < ids@.len() && (ids@[at]@ == "ubuntu"@ || ids@[at]@ == "debian"@) ==> package@
            == "gstreamer1.0-plugins-bad"@,
        at < ids@.len() && (ids@[at]@ == "fedora"@ || ids@[at]@ == "rhel"@ || ids@[at]@
            == "centos"@) ==> package@ == "gstreamer1-plugins-bad-free"@,
        at < ids@.len() && (ids@[at]@ == "opensuse"@ || ids@[at]@ == "suse"@) ==> package@
            == "gstreamer-plugins-bad"@,
{
    let told = texts(ids@);
    assert forall|i: int| 0 <= i < at implies !is_known_distribution(#[trigger] told[i]) by {
        assert(told[i] == ids@[i]@);
    }
    lemma_package_for(told, at);
    reveal_strlit("");
    reveal_strlit("arch");
    reveal_strlit("ubuntu");
    reveal_strlit("debian");
    reveal_strlit("fedora");
    reveal_strlit("rhel");
    reveal_strlit("centos");
    reveal_strlit("opensuse");
    reveal_strlit("suse");
    assert("arch"@[0] == 'a' && "ubuntu"@[0] == 'u' && "debian"@[0] == 'd' && "fedora"@[0] == 'f');
    assert("rhel"@[0] == 'r' && "centos"@[0] == 'c' && "opensuse"@[0] == 'o' && "suse"@[0] == 's');
}

/// Whether the package of a distribution is known.
pub open spec fn is_known_distribution(id: Seq<char>) -> bool {
    ||| id == "arch"@
    ||| id == "ubuntu"@
    ||| id == "debian"@
    ||| id == "fedora"@
    ||| id == "rhel"@
    ||| id == "centos"@
    ||| id == "opensuse"@
    ||| id == "suse"@
}

proof fn lemma_package_for(ids: Seq<Seq<char>>, at: int)
    requires
        0 <= at <= ids.len(),
        forall|i: int| 0 <= i < at ==> !is_known_distribution(#[trigger] ids[i]),
        at < ids.len() ==> is_known_distribution(ids[at]),
    ensures
        at == ids.len() ==> package_for(ids) == ""@,
        at < ids.len() ==> Some(package_for(ids)) == package_on(ids[at]),
    decreases ids.len(),
{
    if at > 0 {
        let rest = ids.skip(1);
        assert(!is_known_distribution(ids[0]));
        assert forall|i: int| 0 <= i < at - 1 implies !is_known_distribution(#[trigger] rest[i]) by {
            assert(rest[i] == ids[i + 1]);
        }
        lemma_package_for(rest, at - 1);
    }
}

/// Advice is given only where it helps: to someone without hardware encoding
/// whose machine has a card for it. A card for VA-API calls for the plugin when
/// that is missing and for a driver when it is not; a machine with nothing but
/// NVENC calls for NVIDIA's.
pub proof fn law_advice_goes_by_the_cards(
    hardware: bool,
    gpus: &[Gpu],
    plugin: bool,
    gap: &'static str,
)
    requires
        call_ensures(hardware_gap, (hardware, gpus, plugin), gap),
    ensures
        gap@ == "plugin"@ <==> !hardware && gpus@.contains(Gpu::VaApi) && !plugin,
        gap@ == "driver"@ <==> !hardware && gpus@.contains(Gpu::VaApi) && plugin,
        gap@ == "nvidia"@ <==> !hardware && !gpus@.contains(Gpu::VaApi) && gpus@.contains(
            Gpu::Nvenc,
        ),
        gap@.len() == 0 <==> hardware || (!gpus@.contains(Gpu::VaApi) && !gpus@.contains(
            Gpu::Nvenc,
        )),
{
    lemma_advice_is_told_apart();
}

proof fn lemma_advice_is_told_apart()
    ensures
        "plugin"@ != "driver"@,
        "plugin"@ != "nvidia"@,
        "driver"@ != "nvidia"@,
        "plugin"@.len() == 6,
        "driver"@.len() == 6,
        "nvidia"@.len() == 6,
        ""@.len() == 0,
{
    reveal_strlit("plugin");
    reveal_strlit("driver");
    reveal_strlit("nvidia");
    reveal_strlit("");
    assert("plugin"@[0] == 'p' && "driver"@[0] == 'd' && "nvidia"@[0] == 'n');
}

/// The advice for a host is that for its cards, as the drivers of its render
/// nodes tell them, with what is installed; only the missing plugin comes with
/// the package that the host's distribution has it in.
pub proof fn law_a_hosts_advice_goes_by_its_drivers<F: Fn() -> String>(
    nodes: Vec<DrmNode>,
    registry: &Registry,
    os_release: F,
    gap: (&'static str, &'static str),
    drivers: Vec<String>,
    available: bool,
    gpus: &[Gpu],
    advice: &'static str,
)
    requires
        call_ensures(hardware_encoding_gap::<F>, (&nodes, registry, &os_release), gap),
        call_ensures(render_node_drivers, (&nodes,), drivers),
        call_ensures(hardware_encoder_available, (registry,), available),
        gpus@.len() == drivers@.len(),
        forall|i: int|
            0 <= i < gpus@.len() ==> exists|driver: &str|
                driver@ == drivers@[i]@ && #[trigger] call_ensures(
                    gpu_class,
                    (driver,),
                    #[trigger] gpus@[i],
                ),
        call_ensures(hardware_gap, (available, gpus, registry.va_plugin), advice),
    ensures
        gap.0@ == advice@,
        gap.0@ != "plugin"@ ==> gap.1@.len() == 0,
        gap.0@ == "plugin"@ ==> exists|text: String|
            #[trigger] call_ensures(os_release, (), text) && gap.1@ == package_for(
                release_ids(text@),
            ),
{
    lemma_advice_is_told_apart();
    let told = gpus_of(string_texts(drivers@));
    assert forall|i: int| 0 <= i < gpus@.len() implies gpus@[i] == told[i] by {
        let driver = choose|driver: &str|
            driver@ == drivers@[i]@ && #[trigger] call_ensures(gpu_class, (driver,), gpus@[i]);
        assert(string_texts(drivers@)[i] == driver@);
    }
    assert(gpus@ =~= told);
}

/// Whether a line gives a value to a name: the name stands ahead of the first
/// equals sign, and the value behind it, without white space and then without
/// the double quotes around it.
pub open spec fn assigns(line: Seq<char>, name: Seq<char>, value: Seq<char>) -> bool {
    exists|left: Seq<char>, right: Seq<char>|
        {
            &&& line == #[trigger] (left + seq!['='] + right)
            &&& !left.contains('=')
            &&& trimmed(left) == name
            &&& value == cut_ends(trimmed(right), CutSet::DoubleQuotes)
        }
}

/// Whether a value is the one that the first line to give one to a name gives
/// it, or empty for want of such a line.
pub open spec fn is_value_of(lines: Seq<Seq<char>>, name: Seq<char>, value: Seq<char>) -> bool {
    ||| value.len() == 0 && forall|i: int, other: Seq<char>|
        0 <= i < lines.len() ==> !(#[trigger] assigns(lines[i], name, other))
    ||| exists|at: int|
        {
            &&& 0 <= at < lines.len()
            &&& #[trigger] assigns(lines[at], name, value)
            &&& forall|i: int, other: Seq<char>|
                0 <= i < at ==> !(#[trigger] assigns(lines[i], name, other))
        }
}

proof fn lemma_first_place(left: Seq<char>, c: char, right: Seq<char>)
    requires
        !left.contains(c),
    ensures
        place_of(left + seq![c] + right, c) == left.len(),
    decreases left.len(),
{
    let line = left + seq![c] + right;
    if left.len() > 0 {
        assert(left.contains(left[0]));
        let rest = left.skip(1);
        assert(line.skip(1) =~= rest + seq![c] + right);
        assert forall|i: int| 0 <= i < rest.len() implies rest[i] != c by {
            assert(left.contains(left[i + 1]));
        }
        lemma_first_place(rest, c, right);
    }
}

proof fn lemma_place_splits(line: Seq<char>, c: char)
    requires
        place_of(line, c) < line.len(),
    ensures
        0 <= place_of(line, c),
        line == line.take(place_of(line, c)) + seq![c] + line.skip(place_of(line, c) + 1),
        !line.take(place_of(line, c)).contains(c),
    decreases line.len(),
{
    let at = place_of(line, c);
    if line.len() > 0 && line[0] != c {
        let rest = line.skip(1);
        lemma_place_splits(rest, c);
        let before = place_of(rest, c);
        assert(at == before + 1);
        assert forall|i: int| 0 <= i < at implies line[i] != c by {
            if i > 0 {
                assert(rest.take(before)[i - 1] == line[i]);
                assert(rest.take(before).contains(rest.take(before)[i - 1]));
            }
        }
        assert((rest.take(before) + seq![c] + rest.skip(before + 1))[before] == c);
        assert(line[at] == c);
    }
    assert(line =~= line.take(at) + seq![c] + line.skip(at + 1));
}

/// What a line gives to a name is what its first equals sign makes of it.
proof fn lemma_assigns(line: Seq<char>, name: Seq<char>, value: Seq<char>)
    ensures
        assigns(line, name, value) <==> {
            let at = place_of(line, '=');
            &&& at < line.len()
            &&& trimmed(line.take(at)) == name
            &&& value == cut_ends(trimmed(line.skip(at + 1)), CutSet::DoubleQuotes)
        },
{
    let at = place_of(line, '=');
    if assigns(line, name, value) {
        let (left, right) = choose|left: Seq<char>, right: Seq<char>|
            {
                &&& line == #[trigger] (left + seq!['='] + right)
                &&& !left.contains('=')
                &&& trimmed(left) == name
                &&& value == cut_ends(trimmed(right), CutSet::DoubleQuotes)
            };
        lemma_first_place(left, '=', right);
        assert(line.take(at) =~= left);
        assert(line.skip(at + 1) =~= right);
    }
    if at < line.len() {
        lemma_place_splits(line, '=');
    }
}

proof fn lemma_release_value(lines: Seq<Seq<char>>, name: Seq<char>, value: Seq<char>)
    requires
        is_value_of(lines, name, value),
    ensures
        release_value(lines, name) == value,
    decreases lines.len(),
{
    if lines.len() == 0 {
        assert(value =~= Seq::empty());
    } else {
        let line = lines[0];
        let rest = lines.skip(1);
        let at = place_of(line, '=');
        let given = cut_ends(trimmed(line.skip(at + 1)), CutSet::DoubleQuotes);
        lemma_assigns(line, name, given);
        lemma_assigns(line, name, value);
        assert forall|i: int| 0 <= i < rest.len() implies #[trigger] rest[i] == lines[i + 1] by {}
        if assigns(line, name, given) {
            assert(assigns(lines[0], name, given));
        } else {
            if exists|k: int|
                {
                    &&& 0 <= k < lines.len()
                    &&& #[trigger] assigns(lines[k], name, value)
                    &&& forall|i: int, other: Seq<char>|
                        0 <= i < k ==> !(#[trigger] assigns(lines[i], name, other))
                } {
                let k = choose|k: int|
                    {
                        &&& 0 <= k < lines.len()
                        &&& #[trigger] assigns(lines[k], name, value)
                        &&& forall|i: int, other: Seq<char>|
                            0 <= i < k ==> !(#[trigger] assigns(lines[i], name, other))
                    };
                assert(k > 0);
                assert(assigns(rest[k - 1], name, value));
                assert forall|i: int, other: Seq<char>| 0 <= i < k - 1 implies !(
                #[trigger] assigns(rest[i], name, other)) by {
                    assert(!assigns(lines[i + 1], name, other));
                }
            } else {
                assert forall|i: int, other: Seq<char>| 0 <= i < rest.len() implies !(
                #[trigger] assigns(rest[i], name, other)) by {
                    assert(!assigns(lines[i + 1], name, other));
                }
            }
            assert(is_value_of(rest, name, value));
            lemma_release_value(rest, name, value);
        }
    }
}

/// A distribution is known by the words of its `ID`, and then by those of its
/// `ID_LIKE`, each as the first line that gives it one says.
pub proof fn law_distributions_are_read_off_the_file(
    text: &str,
    all: Vec<&str>,
    ids: Vec<&str>,
    own: &str,
    like: &str,
    first: Vec<&str>,
    second: Vec<&str>,
)
    requires
        call_ensures(lines, (text,), all),
        call_ensures(os_release_ids, (text,), ids),
        is_value_of(texts(all@), "ID"@, own@),
        is_value_of(texts(all@), "ID_LIKE"@, like@),
        call_ensures(split_words, (own,), first),
        call_ensures(split_words, (like,), second),
    ensures
        texts(ids@) == texts(first@) + texts(second@),
{
    lemma_release_value(texts(all@), "ID"@, own@);
    lemma_release_value(texts(all@), "ID_LIKE"@, like@);
}

/// A user whose choice rules every encoder out is told of the preference that
/// they set, by its name; without a choice there is none installed.
pub proof fn law_failures_name_the_preference(policy: EncodingPolicy, message: String)
    requires
        call_ensures(policy_failure_message, (policy,), message),
    ensures
        policy.encoder is Auto && policy.format is Auto ==> message@
            == "No video encoder is installed. Install the GStreamer encoder plugins for your system."@,
        policy.encoder is Auto && !(policy.format is Auto) ==> message@
            == "No video encoder accepts the selected pixel format. Set the pixel format preference back to automatic."@,
        policy.encoder is Hardware ==> message@
            == "No hardware video encoder can be used for this device. Set the video encoder preference back to automatic."@,
        policy.encoder is Software ==> message@
            == "No software video encoder can be used for this device. Set the video encoder preference back to automatic."@,
        policy.encoder is VaApi ==> message@
            == "No VA-API encoder can be used for this device. Set the video encoder preference back to automatic."@,
        policy.encoder is Nvenc ==> message@
            == "No NVENC encoder can be used for this device. Set the video encoder preference back to automatic."@,
        policy.encoder is V4l2 ==> message@
            == "No V4L2 encoder can be used for this device. Set the video encoder preference back to automatic."@,
{
}

/// The codecs come the most efficient first.
pub proof fn law_codecs_come_by_efficiency(order: Vec<VideoCodec>)
    requires
        call_ensures(efficiency_order, (), order),
    ensures
        order@.len() == 4,
        forall|i: int, j: int|
            0 <= i < j < 4 ==> standing(#[trigger] order@[i]) < standing(#[trigger] order@[j]),
{
}

/// An element is installed when one of its name is listed, and accepts a format
/// when one of its name is listed with it.
pub proof fn law_elements_are_looked_up_by_name(
    registry: Registry,
    name: &str,
    format: &str,
    installed: bool,
    accepts: bool,
)
    requires
        call_ensures(Registry::installed, (&registry, name), installed),
        call_ensures(Registry::accepts_format, (&registry, name, format), accepts),
    ensures
        installed <==> exists|i: int|
            0 <= i < registry.elements@.len() && (#[trigger] registry.elements@[i]).name@ == name@,
        accepts <==> takes(&registry, name@, format@),
{
    lemma_takes(&registry, name@, format@);
}

/// A text is found in a list exactly when the list has it.
pub proof fn law_listed_texts_are_found(list: Vec<String>, text: &str, found: bool)
    requires
        call_ensures(contains, (&list, text), found),
    ensures
        found <==> exists|i: int| 0 <= i < list@.len() && (#[trigger] list@[i])@ == text@,
{
}

/// Hardware is tried out by opening its device, software by parsing alone; what
/// the trial says is what is said.
pub proof fn law_hardware_has_to_open<F: Fn(&str, Probe) -> bool>(
    factory: &str,
    fragment: &str,
    try_out: F,
    usable: bool,
)
    requires
        call_ensures(fragment_usable::<F>, (factory, fragment, &try_out), usable),
    ensures
        was_tried(
            try_out,
            fragment@,
            says(factory@, "v4l2"@) || says(factory@, "va"@) || says(factory@, "nv"@),
            usable,
        ),
{
    lemma_hardware_names(factory@);
}

} // verus!
