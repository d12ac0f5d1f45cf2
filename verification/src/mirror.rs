//! The decisions of a mirroring session: what is offered to a receiver, what is
//! made of its answer, and when the session ends.

use std::collections::VecDeque;

use vstd::prelude::*;
use vstd::string::StringExecFns;

use crate::crypto::{generate_keys, ssrc_from, StreamKeys, SSRC_SPREAD};
use crate::encoder::{
    availability, available_video_codecs, caps_text, codec_text, encoder_picked, failure_text,
    is_ranking, lemma_preferred_is_a_ranking, no_policy, policy_failure_message, preferred, string_texts, text_in, video_encoder,
    EncodingPolicy, FormatPolicy, Probe, Registry, VideoCodec,
};
use crate::pipeline::{str_in, Resolved, StreamSettings};
use crate::sender::RateControl;
use crate::state::{CastDetails, DetailsView, Event, SharedState, StateView};
use crate::stream::{EncodedChunk, StreamConfig, StreamKind};
use crate::text::{
    begins, decimal, law_numbers_are_told_apart, law_signs_come_first, occurs, push_decimal,
    push_signed, signed_decimal,
};
use crate::time::Instant;

verus! {

/// The index of the audio stream in an OFFER.
pub const AUDIO_INDEX: u32 = 0;

/// First video stream index; each offered codec gets the next one up.
pub const VIDEO_INDEX_BASE: u32 = 1;

/// Where the source ids of audio streams start.
pub const AUDIO_SSRC_BASE: u32 = 1_000;

/// Where the source ids of video streams start.
pub const VIDEO_SSRC_BASE: u32 = 50_000;

/// How far apart the source ids of two video streams start.
pub const VIDEO_SSRC_STEP: u32 = 1_000;

/// How a mirroring session went.
pub enum Outcome {
    /// Mirroring ran (successfully or not); do not fall back.
    Finished(Result<(), String>),
    /// Mirroring could not be established; the caller should fall back to HLS.
    Unavailable(String),
}

/// An offered audio stream.
pub struct AudioParams {
    pub index: u32,
    pub ssrc: u32,
    pub aes_key: [u8; 16],
    pub aes_iv_mask: [u8; 16],
    pub bit_rate: u32,
}

/// An offered video stream.
pub struct VideoParams {
    pub index: u32,
    pub ssrc: u32,
    pub aes_key: [u8; 16],
    pub aes_iv_mask: [u8; 16],
    pub codec_name: &'static str,
    pub max_bit_rate: u32,
    pub max_fps: u32,
    pub width: u32,
    pub height: u32,
}

/// What a receiver accepts of an OFFER.
pub struct Answer {
    pub udp_port: u16,
    /// The indexes of the streams it wants sent.
    pub send_indexes: Vec<u32>,
}

/// A number as it goes into an unsigned field; a fallback stands in for a
/// negative one.
pub open spec fn unsigned_or(value: i32, fallback: u32) -> u32 {
    if value >= 0 {
        value as u32
    } else {
        fallback
    }
}

fn to_unsigned_or(value: i32, fallback: u32) -> (unsigned: u32)
    ensures
        unsigned == unsigned_or(value, fallback),
{
    if value >= 0 {
        value as u32
    } else {
        fallback
    }
}

/// A bitrate in bit/s: nothing for a negative one, and no more than fits.
pub open spec fn bits_of(kbps: i32) -> u32 {
    let bits = unsigned_or(kbps, 0) * 1000;
    if bits <= u32::MAX {
        bits as u32
    } else {
        u32::MAX
    }
}

/// A bitrate in bit/s.
pub fn bits_per_second(kbps: i32) -> (bps: u32)
    ensures
        bps == bits_of(kbps),
{
    let kilobits: u32 = to_unsigned_or(kbps, 0);
    if kilobits > u32::MAX / 1000 {
        u32::MAX
    } else {
        kilobits * 1000
    }
}

/// Whether a session can run on what there is to send: `Ok` says whether it
/// goes without audio. An audio-only cast needs an audio monitor.
pub fn check_sources(has_capture: bool, has_monitor: bool) -> (sources: Result<bool, Outcome>)
    ensures
        has_monitor ==> (sources matches Ok(video_only) && !video_only),
        !has_monitor && has_capture ==> (sources matches Ok(video_only) && video_only),
        !has_monitor && !has_capture ==> (sources matches Err(Outcome::Unavailable(message))
            && message@ == "audio-only cast but no system audio monitor was found"@),
{
    if has_monitor {
        Ok(false)
    } else if has_capture {
        Ok(true)
    } else {
        Err(
            Outcome::Unavailable(
                "audio-only cast but no system audio monitor was found".to_owned(),
            ),
        )
    }
}

/// The audio stream of an OFFER.
pub fn audio_params(keys: &StreamKeys, offered: &Resolved) -> (params: AudioParams)
    ensures
        params.index == AUDIO_INDEX,
        params.ssrc == keys.ssrc,
        params.aes_key == keys.aes_key,
        params.aes_iv_mask == keys.aes_iv_mask,
        params.bit_rate == unsigned_or(offered.audio_bitrate_bps, 128_000),
{
    AudioParams {
        index: AUDIO_INDEX,
        ssrc: keys.ssrc,
        aes_key: keys.aes_key,
        aes_iv_mask: keys.aes_iv_mask,
        bit_rate: to_unsigned_or(offered.audio_bitrate_bps, 128_000),
    }
}

/// Why nothing can be offered under some settings.
pub open spec fn nothing_to_offer(settings: StreamSettings) -> Seq<char> {
    match settings.video_codec {
        Some(codec) => "no "@ + codec_text(codec)
            + " encoder matches the selected encoder and pixel format"@,
        None => failure_text(settings.encoding),
    }
}

/// Whether `offer` is what to do with the codecs that can be encoded.
pub open spec fn offered_from(
    settings: StreamSettings,
    codecs: Seq<VideoCodec>,
    offer: Result<Vec<VideoCodec>, Outcome>,
) -> bool {
    if codecs.len() > 0 {
        offer matches Ok(list) && list@ == codecs
    } else if settings.encoding == no_policy() && settings.video_codec is None {
        offer matches Err(Outcome::Unavailable(message)) && message@ == nothing_to_offer(settings)
    } else {
        offer matches Err(Outcome::Finished(Err(message))) && message@ == nothing_to_offer(settings)
    }
}

/// Offers the codecs that can be encoded, or says how the session ends when
/// there is none. A forced setting that rules everything out is reported, not
/// worked around: falling back to HLS would quietly defeat the user's choice.
/// With no forced setting this is just "nothing installed" - still worth trying
/// HLS, which needs only H.264.
pub fn offer_from(settings: &StreamSettings, codecs: Vec<VideoCodec>) -> (offer: Result<
    Vec<VideoCodec>,
    Outcome,
>)
    ensures
        offered_from(*settings, codecs@, offer),
{
    if codecs.len() > 0 {
        return Ok(codecs);
    }
    let message = match settings.video_codec {
        Some(codec) => {
            let mut message = "no ".to_owned();
            message.append(codec.codec_name());
            message.append(" encoder matches the selected encoder and pixel format");
            message
        },
        None => policy_failure_message(settings.encoding),
    };
    if settings.encoding == EncodingPolicy::default() && settings.video_codec.is_none() {
        Err(Outcome::Unavailable(message))
    } else {
        Err(Outcome::Finished(Err(message)))
    }
}

/// One video variant per codec that can be encoded locally, best first; the
/// receiver picks one in its ANSWER. Empty for an audio-only cast; `Err` carries
/// the outcome of the session when nothing can be offered.
pub fn offer_codecs<F: Fn(&str, Probe) -> bool>(
    has_capture: bool,
    settings: &StreamSettings,
    registry: &Registry,
    try_out: &F,
) -> (offer: Result<Vec<VideoCodec>, Outcome>)
    requires
        forall|text: &str, probe: Probe| #[trigger] call_requires(*try_out, (text, probe)),
    ensures
        !has_capture ==> (offer matches Ok(list) && list@.len() == 0),
        has_capture ==> exists|available: Seq<(VideoCodec, bool)>|
            #[trigger] availability(
                *try_out,
                settings.encoding,
                settings.video_codec,
                registry,
                4,
                available,
            ) && offered_from(*settings, preferred(available), offer),
{
    if !has_capture {
        return Ok(Vec::new());
    }
    let codecs = available_video_codecs(settings.encoding, settings.video_codec, registry, try_out);
    offer_from(settings, codecs)
}

/// Where the source ids of video variant `i` start.
pub open spec fn video_ssrc_base(i: int) -> u32 {
    let index = if i <= u32::MAX {
        i
    } else {
        0
    };
    if VIDEO_SSRC_BASE + VIDEO_SSRC_STEP * index <= u32::MAX {
        (VIDEO_SSRC_BASE + VIDEO_SSRC_STEP * index) as u32
    } else {
        u32::MAX
    }
}

/// The index of video variant `i` in an OFFER.
pub open spec fn video_index(i: int) -> u32 {
    let index = if i <= u32::MAX {
        i
    } else {
        0
    };
    if VIDEO_INDEX_BASE + index <= u32::MAX {
        (VIDEO_INDEX_BASE + index) as u32
    } else {
        u32::MAX
    }
}

/// Whether `params` is video variant `i` of an OFFER, apart from its keys.
pub open spec fn is_variant(
    params: VideoParams,
    i: int,
    codec: VideoCodec,
    size: (i32, i32),
    fps: i32,
    video_bps: u32,
) -> bool {
    &&& params.index == video_index(i)
    &&& params.codec_name@ == codec_text(codec)
    &&& params.max_bit_rate == video_bps
    &&& params.max_fps == unsigned_or(fps, 0)
    &&& params.width == unsigned_or(size.0, 0)
    &&& params.height == unsigned_or(size.1, 0)
}

fn index_of(i: usize) -> (index: u32)
    ensures
        index == if i <= u32::MAX {
            i as int
        } else {
            0
        },
{
    if i <= u32::MAX as usize {
        i as u32
    } else {
        0
    }
}

fn video_ssrc_base_of(i: usize) -> (base: u32)
    ensures
        base == video_ssrc_base(i as int),
{
    let base: u64 = VIDEO_SSRC_BASE as u64 + VIDEO_SSRC_STEP as u64 * index_of(i) as u64;
    if base <= u32::MAX as u64 {
        base as u32
    } else {
        u32::MAX
    }
}

/// One OFFER variant per codec, with the keys drawn for it.
pub fn video_params_from(
    codecs: &Vec<VideoCodec>,
    keys: &Vec<StreamKeys>,
    size: (i32, i32),
    fps: i32,
    video_bps: u32,
) -> (params: Vec<VideoParams>)
    requires
        keys@.len() == codecs@.len(),
    ensures
        params@.len() == codecs@.len(),
        forall|i: int|
            0 <= i < params@.len() ==> is_variant(
                #[trigger] params@[i],
                i,
                codecs@[i],
                size,
                fps,
                video_bps,
            ) && params@[i].ssrc == keys@[i].ssrc && params@[i].aes_key == keys@[i].aes_key
                && params@[i].aes_iv_mask == keys@[i].aes_iv_mask,
{
    let mut params: Vec<VideoParams> = Vec::new();
    let mut at: usize = 0;
    while at < codecs.len()
        invariant
            at <= codecs@.len(),
            keys@.len() == codecs@.len(),
            params@.len() == at,
            forall|i: int|
                0 <= i < at ==> is_variant(
                    #[trigger] params@[i],
                    i,
                    codecs@[i],
                    size,
                    fps,
                    video_bps,
                ) && params@[i].ssrc == keys@[i].ssrc && params@[i].aes_key == keys@[i].aes_key
                    && params@[i].aes_iv_mask == keys@[i].aes_iv_mask,
        decreases codecs@.len() - at,
    {
        params.push(
            VideoParams {
                index: VIDEO_INDEX_BASE.saturating_add(index_of(at)),
                ssrc: keys[at].ssrc,
                aes_key: keys[at].aes_key,
                aes_iv_mask: keys[at].aes_iv_mask,
                codec_name: codecs[at].codec_name(),
                max_bit_rate: video_bps,
                max_fps: to_unsigned_or(fps, 0),
                width: to_unsigned_or(size.0, 0),
                height: to_unsigned_or(size.1, 0),
            },
        );
        at = at + 1;
    }
    params
}

/// Whether a source id can have been drawn for video variant `i`.
pub open spec fn is_drawn_for(ssrc: u32, i: int) -> bool {
    exists|drawn: u32| ssrc == #[trigger] ssrc_from(video_ssrc_base(i), drawn)
}

/// One OFFER variant per codec that can be encoded, each with its own source id
/// and keys, which are drawn.
pub fn video_params(codecs: &Vec<VideoCodec>, size: (i32, i32), fps: i32, video_bps: u32) -> (params:
    Vec<VideoParams>)
    ensures
        params@.len() == codecs@.len(),
        forall|i: int|
            0 <= i < params@.len() ==> is_variant(
                #[trigger] params@[i],
                i,
                codecs@[i],
                size,
                fps,
                video_bps,
            ) && is_drawn_for(params@[i].ssrc, i),
{
    let mut keys: Vec<StreamKeys> = Vec::new();
    let mut at: usize = 0;
    while at < codecs.len()
        invariant
            at <= codecs@.len(),
            keys@.len() == at,
            forall|i: int|
                0 <= i < at ==> is_drawn_for((#[trigger] keys@[i]).ssrc, i),
        decreases codecs@.len() - at,
    {
        keys.push(generate_keys(video_ssrc_base_of(at)));
        at = at + 1;
    }
    video_params_from(codecs, &keys, size, fps, video_bps)
}

/// Whether a receiver wants variant `i` of an OFFER sent.
pub open spec fn wants(
    answer: Answer,
    params: Seq<VideoParams>,
    codecs: Seq<VideoCodec>,
    i: int,
) -> bool {
    0 <= i < params.len() && i < codecs.len() && answer.send_indexes@.contains(params[i].index)
}

fn has_index(indexes: &Vec<u32>, index: u32) -> (found: bool)
    ensures
        found == indexes@.contains(index),
{
    let mut at: usize = 0;
    while at < indexes.len()
        invariant
            at <= indexes@.len(),
            forall|i: int| 0 <= i < at ==> indexes@[i] != index,
        decreases indexes@.len() - at,
    {
        if indexes[at] == index {
            return true;
        }
        at = at + 1;
    }
    false
}

/// The names of the codecs that a receiver accepted among the first `upto`.
pub open spec fn accepted_names(
    answer: Answer,
    params: Seq<VideoParams>,
    codecs: Seq<VideoCodec>,
    upto: int,
) -> Seq<Seq<char>>
    decreases upto,
{
    if upto <= 0 {
        Seq::empty()
    } else {
        let before = accepted_names(answer, params, codecs, upto - 1);
        if wants(answer, params, codecs, upto - 1) {
            before.push(codec_text(codecs[upto - 1]))
        } else {
            before
        }
    }
}

/// How many variants an OFFER has.
pub open spec fn variant_count(params: Seq<VideoParams>, codecs: Seq<VideoCodec>) -> int {
    if params.len() <= codecs.len() {
        params.len() as int
    } else {
        codecs.len() as int
    }
}

/// Codecs the receiver accepted from the OFFER, for "show details".
pub fn accepted_codec_names(
    answer: &Answer,
    params: &Vec<VideoParams>,
    codecs: &Vec<VideoCodec>,
) -> (names: Vec<String>)
    ensures
        string_texts(names@) == accepted_names(
            *answer,
            params@,
            codecs@,
            variant_count(params@, codecs@),
        ),
{
    let mut names: Vec<String> = Vec::new();
    let mut at: usize = 0;
    assert(string_texts(names@) =~= Seq::empty());
    while at < params.len() && at < codecs.len()
        invariant
            at <= params@.len(),
            at <= codecs@.len(),
            string_texts(names@) == accepted_names(
                *answer,
                params@,
                codecs@,
                at as int,
            ),
        decreases params@.len() - at,
    {
        let ghost before = names@;
        if has_index(&answer.send_indexes, params[at].index) {
            names.push(codecs[at].codec_name().to_owned());
            assert(string_texts(names@) =~= string_texts(
                before,
            ).push(codec_text(codecs@[at as int])));
        }
        at = at + 1;
    }
    names
}

/// A video stream that a receiver accepted.
#[derive(Clone, Copy)]
pub struct SelectedVideo {
    pub codec: VideoCodec,
    pub ssrc: u32,
    pub aes_key: [u8; 16],
    pub aes_iv_mask: [u8; 16],
}

/// What the receiver accepted from the OFFER, and the encoder to feed it.
pub struct Selected {
    pub video: Option<SelectedVideo>,
    pub audio: bool,
    /// The launch fragment, and whether the encoder is hardware.
    pub encoder: Option<(String, bool)>,
}

/// Whether `video` is the variant to send: the first that the receiver wants,
/// the variants being in the order of preference.
pub open spec fn video_selected(
    answer: Answer,
    params: Seq<VideoParams>,
    codecs: Seq<VideoCodec>,
    video: Option<SelectedVideo>,
) -> bool {
    match video {
        Some(video) => exists|i: int|
            {
                &&& #[trigger] wants(answer, params, codecs, i)
                &&& forall|j: int| 0 <= j < i ==> !#[trigger] wants(answer, params, codecs, j)
                &&& video == (SelectedVideo {
                    codec: codecs[i],
                    ssrc: params[i].ssrc,
                    aes_key: params[i].aes_key,
                    aes_iv_mask: params[i].aes_iv_mask,
                })
            },
        None => forall|i: int| !#[trigger] wants(answer, params, codecs, i),
    }
}

/// The variant to send.
pub fn select_video(answer: &Answer, params: &Vec<VideoParams>, codecs: &Vec<VideoCodec>) -> (video:
    Option<SelectedVideo>)
    ensures
        video_selected(*answer, params@, codecs@, video),
{
    let mut at: usize = 0;
    while at < params.len() && at < codecs.len()
        invariant
            at <= params@.len(),
            at <= codecs@.len(),
            forall|j: int| 0 <= j < at ==> !#[trigger] wants(*answer, params@, codecs@, j),
        decreases params@.len() - at,
    {
        if has_index(&answer.send_indexes, params[at].index) {
            assert(wants(*answer, params@, codecs@, at as int));
            return Some(
                SelectedVideo {
                    codec: codecs[at],
                    ssrc: params[at].ssrc,
                    aes_key: params[at].aes_key,
                    aes_iv_mask: params[at].aes_iv_mask,
                },
            );
        }
        at = at + 1;
    }
    None
}

/// Whether a receiver accepts the audio that was offered.
pub open spec fn audio_accepted(answer: Answer, audio_offered: bool) -> bool {
    audio_offered && answer.send_indexes@.contains(AUDIO_INDEX)
}

/// Matches the ANSWER against what was offered. A screen cast needs a video
/// stream, an audio-only cast the audio stream. The encoder is picked under the
/// same policy as the OFFER, or a codec would be advertised and then refused.
pub fn select_streams<F: Fn(&str, Probe) -> bool>(
    answer: &Answer,
    params: &Vec<VideoParams>,
    codecs: &Vec<VideoCodec>,
    audio_offered: bool,
    has_capture: bool,
    settings: &StreamSettings,
    resolved: &Resolved,
    registry: &Registry,
    try_out: &F,
) -> (selected: Result<Selected, String>)
    requires
        forall|text: &str, probe: Probe| #[trigger] call_requires(*try_out, (text, probe)),
    ensures
        match selected {
            Ok(selected) => {
                &&& video_selected(*answer, params@, codecs@, selected.video)
                &&& selected.audio == audio_accepted(*answer, audio_offered)
                &&& has_capture ==> selected.video is Some
                &&& !has_capture ==> selected.audio
                &&& selected.video is None ==> selected.encoder is None
                &&& selected.video matches Some(video) ==> selected.encoder is Some
                    && encoder_picked(
                    *try_out,
                    video.codec,
                    bits_of(resolved.video_bitrate_kbps),
                    unsigned_or(resolved.fps, 30),
                    settings.encoding,
                    registry,
                    selected.encoder,
                )
            },
            Err(message) => {
                ||| {
                    &&& message@ == "receiver accepted none of the offered video codecs"@
                    &&& has_capture
                    &&& video_selected(*answer, params@, codecs@, None)
                }
                ||| {
                    &&& message@ == "receiver did not accept the audio stream"@
                    &&& !has_capture
                    &&& !audio_accepted(*answer, audio_offered)
                }
                ||| {
                    &&& message@ == "no encoder for the negotiated video codec"@
                    &&& has_capture || audio_accepted(*answer, audio_offered)
                    &&& exists|video: SelectedVideo|
                        #![trigger video_selected(*answer, params@, codecs@, Some(video))]
                        video_selected(*answer, params@, codecs@, Some(video))
                            && encoder_picked(
                            *try_out,
                            video.codec,
                            bits_of(resolved.video_bitrate_kbps),
                            unsigned_or(resolved.fps, 30),
                            settings.encoding,
                            registry,
                            None,
                        )
                }
            },
        },
{
    let video = select_video(answer, params, codecs);
    if has_capture && video.is_none() {
        return Err("receiver accepted none of the offered video codecs".to_owned());
    }
    let audio = audio_offered && has_index(&answer.send_indexes, AUDIO_INDEX);
    if !has_capture && !audio {
        return Err("receiver did not accept the audio stream".to_owned());
    }
    let mut encoder: Option<(String, bool)> = None;
    if let Some(chosen) = video {
        encoder =
        video_encoder(
            chosen.codec,
            bits_per_second(resolved.video_bitrate_kbps),
            to_unsigned_or(resolved.fps, 30),
            settings.encoding,
            registry,
            try_out,
        );
        if encoder.is_none() {
            assert(video_selected(*answer, params@, codecs@, Some(chosen)));
            return Err("no encoder for the negotiated video codec".to_owned());
        }
    }
    Ok(Selected { video, audio, encoder })
}

/// The streams that a receiver accepted, as the sender is set up for them.
pub open spec fn configs_for(
    video: Option<SelectedVideo>,
    audio: Option<StreamKeys>,
    video_payload_type: u8,
    audio_payload_type: u8,
) -> Seq<StreamConfig> {
    let first = match video {
        Some(video) => seq![
            StreamConfig {
                kind: StreamKind::Video,
                ssrc: video.ssrc,
                payload_type: video_payload_type,
                aes_key: video.aes_key,
                aes_iv_mask: video.aes_iv_mask,
            },
        ],
        None => Seq::empty(),
    };
    match audio {
        Some(keys) => first.push(
            StreamConfig {
                kind: StreamKind::Audio,
                ssrc: keys.ssrc,
                payload_type: audio_payload_type,
                aes_key: keys.aes_key,
                aes_iv_mask: keys.aes_iv_mask,
            },
        ),
        None => first,
    }
}

/// The RTP streams the receiver accepted, in the order the sender expects.
pub fn stream_configs(
    video: Option<SelectedVideo>,
    audio: Option<StreamKeys>,
    video_payload_type: u8,
    audio_payload_type: u8,
) -> (configs: Vec<StreamConfig>)
    ensures
        configs@ == configs_for(video, audio, video_payload_type, audio_payload_type),
{
    let mut configs: Vec<StreamConfig> = Vec::new();
    if let Some(video) = video {
        configs.push(
            StreamConfig {
                kind: StreamKind::Video,
                ssrc: video.ssrc,
                payload_type: video_payload_type,
                aes_key: video.aes_key,
                aes_iv_mask: video.aes_iv_mask,
            },
        );
    }
    if let Some(keys) = audio {
        configs.push(
            StreamConfig {
                kind: StreamKind::Audio,
                ssrc: keys.ssrc,
                payload_type: audio_payload_type,
                aes_key: keys.aes_key,
                aes_iv_mask: keys.aes_iv_mask,
            },
        );
    }
    assert(configs@ =~= configs_for(video, audio, video_payload_type, audio_payload_type));
    configs
}

/// The narrowest that the capture may get.
pub const MIN_CAPTURE_WIDTH: i32 = 320;

/// The lowest that the capture may get.
pub const MIN_CAPTURE_HEIGHT: i32 = 180;

/// The bitrate window the control loop may move in. An explicitly chosen
/// bitrate is left alone; only automatic follows the link. A pinned resolution
/// is honoured; only automatic moves between the rungs, which `snap` makes of
/// the largest and the smallest size, and of the size to start from.
pub fn rate_control<F: Fn((i32, i32), (i32, i32), (i32, i32)) -> Vec<(i32, i32)>>(
    settings: &StreamSettings,
    resolved: &Resolved,
    snap: &F,
) -> (control: RateControl)
    requires
        call_requires(
            *snap,
            (resolved.size, (MIN_CAPTURE_WIDTH, MIN_CAPTURE_HEIGHT), resolved.size),
        ),
    ensures
        control.start_bps == bits_of(resolved.video_bitrate_kbps),
        control.min_bps == unsigned_or(resolved.video_min_bitrate_bps, 300_000),
        control.max_bps == unsigned_or(resolved.video_max_bitrate_bps, control.start_bps),
        control.set_bitrate == (settings.bitrate_kbps is None),
        control.set_size == (settings.size is None),
        call_ensures(
            *snap,
            (resolved.size, (MIN_CAPTURE_WIDTH, MIN_CAPTURE_HEIGHT), resolved.size),
            control.sizes,
        ),
        control.start_size == resolved.size,
{
    let start_bps: u32 = bits_per_second(resolved.video_bitrate_kbps);
    let sizes = snap(resolved.size, (MIN_CAPTURE_WIDTH, MIN_CAPTURE_HEIGHT), resolved.size);
    RateControl {
        start_bps,
        min_bps: to_unsigned_or(resolved.video_min_bitrate_bps, 300_000),
        max_bps: to_unsigned_or(resolved.video_max_bitrate_bps, start_bps),
        set_bitrate: settings.bitrate_kbps.is_none(),
        set_size: settings.size.is_none(),
        sizes,
        start_size: resolved.size,
    }
}

/// What is offered to a receiver.
pub struct Offer {
    pub audio: Option<AudioParams>,
    /// The keys of the audio stream.
    pub audio_keys: StreamKeys,
    /// The codecs of the video variants, best first.
    pub codecs: Vec<VideoCodec>,
    pub video: Vec<VideoParams>,
    /// The screen is cast without its audio, for want of a monitor.
    pub video_only: bool,
}

/// Whether the parts of an OFFER fit together, for what there is to send.
pub open spec fn is_offer(
    offer: Offer,
    has_monitor: bool,
    offered: Resolved,
) -> bool {
    &&& offer.video_only == !has_monitor
    &&& offer.audio is Some <==> has_monitor
    &&& exists|drawn: u32| offer.audio_keys.ssrc == #[trigger] ssrc_from(AUDIO_SSRC_BASE, drawn)
    &&& offer.audio matches Some(audio) ==> {
        &&& audio.index == AUDIO_INDEX
        &&& audio.ssrc == offer.audio_keys.ssrc
        &&& audio.aes_key == offer.audio_keys.aes_key
        &&& audio.aes_iv_mask == offer.audio_keys.aes_iv_mask
        &&& audio.bit_rate == unsigned_or(offered.audio_bitrate_bps, 128_000)
    }
    &&& offer.video@.len() == offer.codecs@.len()
    &&& forall|i: int|
        0 <= i < offer.video@.len() ==> is_variant(
            #[trigger] offer.video@[i],
            i,
            offer.codecs@[i],
            offered.size,
            offered.fps,
            bits_of(offered.video_bitrate_kbps),
        ) && is_drawn_for(offer.video@[i].ssrc, i)
}

/// Puts together what a session offers: the audio stream when there is a
/// monitor to take it from, and a video variant per codec that can be encoded
/// when there is a capture. `Err` carries the outcome of a session that has
/// nothing to offer. The receiver has not said anything yet, so only the
/// program's own limits apply; the ANSWER may narrow every one of these.
pub fn prepare_offer<F: Fn(&str, Probe) -> bool>(
    has_capture: bool,
    has_monitor: bool,
    settings: &StreamSettings,
    offered: &Resolved,
    registry: &Registry,
    try_out: &F,
) -> (offer: Result<Offer, Outcome>)
    requires
        forall|text: &str, probe: Probe| #[trigger] call_requires(*try_out, (text, probe)),
    ensures
        match offer {
            Ok(offer) => {
                &&& has_capture || has_monitor
                &&& is_offer(offer, has_monitor, *offered)
                &&& !has_capture ==> offer.codecs@.len() == 0
                &&& has_capture ==> offer.codecs@.len() > 0 && exists|
                    available: Seq<(VideoCodec, bool)>,
                |
                    #[trigger] availability(
                        *try_out,
                        settings.encoding,
                        settings.video_codec,
                        registry,
                        4,
                        available,
                    ) && offer.codecs@ == preferred(available)
            },
            Err(outcome) => if !has_capture && !has_monitor {
                outcome matches Outcome::Unavailable(message) && message@
                    == "audio-only cast but no system audio monitor was found"@
            } else {
                &&& has_capture
                &&& exists|available: Seq<(VideoCodec, bool)>|
                    #[trigger] availability(
                        *try_out,
                        settings.encoding,
                        settings.video_codec,
                        registry,
                        4,
                        available,
                    ) && preferred(available).len() == 0
                &&& offered_from(*settings, Seq::empty(), Err(outcome))
            },
        },
{
    let video_only = match check_sources(has_capture, has_monitor) {
        Ok(video_only) => video_only,
        Err(outcome) => {
            return Err(outcome);
        },
    };
    let audio_keys = generate_keys(AUDIO_SSRC_BASE);
    let audio = if has_monitor {
        Some(audio_params(&audio_keys, offered))
    } else {
        None
    };
    let codecs = match offer_codecs(has_capture, settings, registry, try_out) {
        Ok(codecs) => codecs,
        Err(outcome) => {
            return Err(outcome);
        },
    };
    let video = video_params(
        &codecs,
        offered.size,
        offered.fps,
        bits_per_second(offered.video_bitrate_kbps),
    );
    Ok(Offer { audio, audio_keys, codecs, video, video_only })
}

/// The session that was negotiated.
pub struct MediaPlan {
    /// The streams to send.
    pub streams: Vec<StreamConfig>,
    /// The launch description of the pipeline that feeds them.
    pub description: String,
    pub control: RateControl,
}

/// Plans the media of a session that was negotiated: the streams to send, the
/// pipeline that feeds them, and how its bitrate is controlled. `snap` makes the
/// capture sizes to move between.
pub fn plan_media<F: Fn((i32, i32), (i32, i32), (i32, i32)) -> Vec<(i32, i32)>>(
    selected: &Selected,
    audio_keys: &StreamKeys,
    capture: Option<(i32, u32)>,
    audio_monitor: Option<&str>,
    settings: &StreamSettings,
    resolved: &Resolved,
    snap: &F,
    video_payload_type: u8,
    audio_payload_type: u8,
) -> (plan: MediaPlan)
    requires
        call_requires(
            *snap,
            (resolved.size, (MIN_CAPTURE_WIDTH, MIN_CAPTURE_HEIGHT), resolved.size),
        ),
    ensures
        plan.streams@ == configs_for(
            selected.video,
            if selected.audio {
                Some(*audio_keys)
            } else {
                None
            },
            video_payload_type,
            audio_payload_type,
        ),
        plan.description@ == mirror_text(
            capture,
            *settings,
            *resolved,
            match selected.encoder {
                Some((fragment, _)) => Some(fragment@),
                None => None,
            },
            if selected.audio {
                str_in(audio_monitor)
            } else {
                None
            },
        ),
        plan.control.start_bps == bits_of(resolved.video_bitrate_kbps),
        plan.control.min_bps == unsigned_or(resolved.video_min_bitrate_bps, 300_000),
        plan.control.max_bps == unsigned_or(
            resolved.video_max_bitrate_bps,
            plan.control.start_bps,
        ),
        plan.control.set_bitrate == (settings.bitrate_kbps is None),
        plan.control.set_size == (settings.size is None),
        call_ensures(
            *snap,
            (resolved.size, (MIN_CAPTURE_WIDTH, MIN_CAPTURE_HEIGHT), resolved.size),
            plan.control.sizes,
        ),
        plan.control.start_size == resolved.size,
{
    let audio = if selected.audio {
        Some(*audio_keys)
    } else {
        None
    };
    let streams = stream_configs(selected.video, audio, video_payload_type, audio_payload_type);
    let fragment: Option<&str> = match &selected.encoder {
        Some((fragment, _)) => Some(fragment.as_str()),
        None => None,
    };
    let monitor = if selected.audio {
        audio_monitor
    } else {
        None
    };
    let description = build_pipeline(capture, settings, resolved, fragment, monitor);
    MediaPlan { streams, description, control: rate_control(settings, resolved, snap) }
}

/// What went wrong on the way to a running session.
pub enum Failure {
    /// The receiver did not agree, or could not be reached.
    Negotiation(String),
    /// The task that negotiates broke down.
    NegotiationTask(String),
    /// What the receiver accepted cannot be sent.
    Selection(String),
    /// The socket or the pipeline could not be set up.
    Media(String),
    /// The pipeline did not start.
    Playing(String),
}

/// How a session ends that failed to start: everything before media could flow
/// leaves the way open for another kind of cast, a pipeline that does not start
/// does not.
pub fn failed_outcome(failure: Failure) -> (outcome: Outcome)
    ensures
        match failure {
            Failure::Negotiation(error) => outcome matches Outcome::Unavailable(message)
                && message@ == error@,
            Failure::NegotiationTask(error) => outcome matches Outcome::Unavailable(message)
                && message@ == "negotiation task failed: "@ + error@,
            Failure::Selection(error) => outcome matches Outcome::Unavailable(message)
                && message@ == error@,
            Failure::Media(error) => outcome matches Outcome::Unavailable(message) && message@
                == error@,
            Failure::Playing(error) => outcome matches Outcome::Finished(Err(message))
                && message@ == "starting mirroring pipeline: "@ + error@,
        },
{
    match failure {
        Failure::Negotiation(error) => Outcome::Unavailable(error),
        Failure::NegotiationTask(error) => {
            let mut message = "negotiation task failed: ".to_owned();
            message.append(error.as_str());
            Outcome::Unavailable(message)
        },
        Failure::Selection(error) => Outcome::Unavailable(error),
        Failure::Media(error) => Outcome::Unavailable(error),
        Failure::Playing(error) => {
            let mut message = "starting mirroring pipeline: ".to_owned();
            message.append(error.as_str());
            Outcome::Finished(Err(message))
        },
    }
}

/// The details of a mirroring session.
pub open spec fn mirror_details(
    codec: Option<VideoCodec>,
    element: Seq<char>,
    receiver_codecs: Seq<Seq<char>>,
) -> DetailsView {
    match codec {
        Some(codec) => DetailsView {
            transport: "mirror"@,
            codec: codec_text(codec),
            encoder: element,
            format: Seq::empty(),
            receiver_codecs,
        },
        None => DetailsView {
            transport: "mirror"@,
            codec: "opus"@,
            encoder: Seq::empty(),
            format: Seq::empty(),
            receiver_codecs: Seq::empty(),
        },
    }
}

/// Moves the session to "casting", with the details of what was negotiated.
/// Returns what to tell the listeners about.
pub fn announce(
    state: &mut SharedState,
    device_id: &str,
    codec: Option<VideoCodec>,
    element: String,
    receiver_codecs: Vec<String>,
    now: Instant,
) -> (event: Event)
    ensures
        event == Event::State,
        final(state)@ == (StateView {
            status: ("casting"@, device_id@),
            details: mirror_details(
                codec,
                element@,
                string_texts(receiver_codecs@),
            ),
            last_activity: now@,
            ..old(state)@
        }),
{
    let details = match codec {
        Some(codec) => {
            let details = CastDetails {
                transport: "mirror".to_owned(),
                codec: codec.codec_name().to_owned(),
                encoder: element,
                format: String::new(),
                receiver_codecs,
            };
            assert(details@.receiver_codecs =~= string_texts(receiver_codecs@));
            details
        },
        None => {
            let details = CastDetails {
                transport: "mirror".to_owned(),
                codec: "opus".to_owned(),
                encoder: String::new(),
                format: String::new(),
                receiver_codecs: Vec::new(),
            };
            assert(details@.receiver_codecs =~= Seq::empty());
            details
        },
    };
    state.set_details(details);
    state.set_status("casting", device_id, now)
}

/// What happens to a running mirroring session.
pub enum SessionEvent {
    /// The user stopped the cast.
    StopRequested,
    /// Screen sharing was stopped from the system menu.
    CaptureClosed,
    /// The device ended the session, with its reason.
    DeviceEnded(String),
    /// The control channel is gone.
    ChannelClosed,
    /// Half a second went by. Carries an error that the pipeline reported, and
    /// the raw format that the encoder has negotiated, once known.
    Tick(Option<String>, Option<String>),
}

/// How often a running session looks at its pipeline, in milliseconds.
pub const SESSION_TICK_MILLIS: u64 = 500;

/// The state after an event of the session.
pub open spec fn after_session_event(state: StateView, event: SessionEvent) -> StateView {
    match event {
        SessionEvent::DeviceEnded(reason) => StateView { last_event: ("ended"@, reason@), ..state },
        SessionEvent::Tick(None, Some(format)) => if state.details.format.len() == 0 {
            StateView { details: DetailsView { format: format@, ..state.details }, ..state }
        } else {
            state
        },
        _ => state,
    }
}

/// Acts on an event of a running session: it ends when the user stops the cast,
/// the compositor ends the screen share, the device drops the session, or the
/// pipeline errors. `None` means that it goes on.
pub fn on_session_event(state: &mut SharedState, event: SessionEvent) -> (ended: Option<
    Result<(), String>,
>)
    ensures
        final(state)@ == after_session_event(old(state)@, event),
        match event {
            SessionEvent::Tick(Some(error), _) => ended matches Some(Err(message)) && message@
                == error@,
            SessionEvent::Tick(None, _) => ended is None,
            _ => ended matches Some(Ok(())),
        },
{
    match event {
        SessionEvent::StopRequested => Some(Ok(())),
        SessionEvent::CaptureClosed => Some(Ok(())),
        SessionEvent::DeviceEnded(reason) => {
            state.set_last_event("ended", reason.as_str());
            Some(Ok(()))
        },
        SessionEvent::ChannelClosed => Some(Ok(())),
        SessionEvent::Tick(error, format) => {
            if let Some(message) = error {
                return Some(Err(message));
            }
            // Caps are only fixed once the pipeline has prerolled, so the format
            // comes here rather than at announce time. Once is enough.
            if let Some(format) = format {
                if state.details().format.as_str().is_empty() {
                    state.set_detail_format(format.as_str());
                }
            }
            None
        },
    }
}

/// A message from the bus of a pipeline.
pub enum BusMessage {
    /// An error, with its text.
    Error(String),
    Other,
}

/// How many messages are taken off the bus to reach an error: up to and with
/// the first one.
pub open spec fn messages_taken(messages: Seq<BusMessage>) -> nat
    decreases messages.len(),
{
    if messages.len() == 0 {
        0
    } else if messages[0] is Error {
        1
    } else {
        1 + messages_taken(messages.skip(1))
    }
}

/// The first error on the bus.
pub open spec fn first_error(messages: Seq<BusMessage>) -> Option<Seq<char>>
    decreases messages.len(),
{
    if messages.len() == 0 {
        None
    } else {
        match messages[0] {
            BusMessage::Error(text) => Some("mirroring pipeline error: "@ + text@),
            BusMessage::Other => first_error(messages.skip(1)),
        }
    }
}

/// Takes messages off the bus up to an error, which is returned; all of them
/// when there is none.
pub fn pop_bus_error(messages: &mut VecDeque<BusMessage>) -> (error: Option<String>)
    ensures
        text_in(error) == first_error(old(messages)@),
        final(messages)@ == old(messages)@.skip(messages_taken(old(messages)@) as int),
{
    let ghost start = messages@;
    let ghost mut taken: int = 0;
    assert(start.skip(0) =~= start);
    while messages.len() > 0
        invariant
            start == old(messages)@,
            0 <= taken <= start.len(),
            messages@ == start.skip(taken),
            first_error(messages@) == first_error(start),
            taken + messages_taken(messages@) == messages_taken(start),
        decreases messages@.len(),
    {
        let ghost before = messages@;
        let next = messages.pop_front();
        proof {
            assert(before.skip(1) =~= start.skip(taken + 1));
            assert(messages@ =~= before.skip(1));
            taken = taken + 1;
        }
        if let Some(BusMessage::Error(text)) = next {
            let mut error = "mirroring pipeline error: ".to_owned();
            error.append(text.as_str());
            return Some(error);
        }
    }
    None
}

/// The video branch of a mirroring pipeline.
pub open spec fn mirror_video_branch(
    fd: i32,
    node: u32,
    settings: StreamSettings,
    resolved: Resolved,
    venc: Seq<char>,
) -> Seq<char> {
    "pipewiresrc fd="@ + signed_decimal(fd as int) + " path="@ + decimal(node as nat)
        + " do-timestamp=true keepalive-time=1000 resend-last=true ! queue leaky=downstream max-size-buffers=3 max-size-bytes=0 max-size-time=0 ! videoconvert ! videoscale ! videorate ! video/x-raw,format="@
        + caps_text(settings.encoding.format) + ",framerate="@ + signed_decimal(
        resolved.fps as int,
    ) + "/1,width="@ + signed_decimal(resolved.size.0 as int) + ",height="@ + signed_decimal(
        resolved.size.1 as int,
    ) + ",pixel-aspect-ratio=1/1 ! "@ + venc + " ! appsink name=vsink sync=false max-buffers=32 "@
}

/// The audio branch of a mirroring pipeline.
pub open spec fn mirror_audio_branch(monitor: Seq<char>, resolved: Resolved) -> Seq<char> {
    "pulsesrc device="@ + monitor
        + " provide-clock=false ! queue ! audioconvert ! audioresample ! audio/x-raw,rate="@
        + signed_decimal(resolved.sample_rate as int) + ",channels="@ + signed_decimal(
        resolved.channels as int,
    ) + " ! opusenc bitrate="@ + signed_decimal(resolved.audio_bitrate_bps as int)
        + " ! appsink name=asink sync=false max-buffers=32"@
}

/// The description of a mirroring pipeline.
pub open spec fn mirror_text(
    capture: Option<(i32, u32)>,
    settings: StreamSettings,
    resolved: Resolved,
    video_encoder: Option<Seq<char>>,
    audio_monitor: Option<Seq<char>>,
) -> Seq<char> {
    let video = match (capture, video_encoder) {
        (Some((fd, node)), Some(venc)) => mirror_video_branch(fd, node, settings, resolved, venc),
        _ => ""@,
    };
    let audio = match audio_monitor {
        Some(monitor) => mirror_audio_branch(monitor, resolved),
        None => ""@,
    };
    video + audio
}

/// The description of a mirroring pipeline. The video branch exists only with
/// both a capture and a chosen encoder (audio-only casts have neither).
/// `video_encoder` already carries its codec, bitrate and low-latency settings
/// and names the element `venc`. The format must stay a set unless forced:
/// VA-API encoders take only NV12, the VPX/AV1 ones only I420, and leaving it
/// open lets videoconvert pick 4:4:4. A forced value already filtered the
/// encoder list, so it can link.
pub fn build_pipeline(
    capture: Option<(i32, u32)>,
    settings: &StreamSettings,
    resolved: &Resolved,
    video_encoder: Option<&str>,
    audio_monitor: Option<&str>,
) -> (description: String)
    ensures
        description@ == mirror_text(
            capture,
            *settings,
            *resolved,
            str_in(video_encoder),
            str_in(audio_monitor),
        ),
{
    let mut description = "".to_owned();
    if let (Some((fd, node)), Some(venc)) = (capture, video_encoder) {
        description = "pipewiresrc fd=".to_owned();
        push_signed(&mut description, fd as i64);
        description.append(" path=");
        push_decimal(&mut description, node as u64);
        description.append(
            " do-timestamp=true keepalive-time=1000 resend-last=true ! queue leaky=downstream max-size-buffers=3 max-size-bytes=0 max-size-time=0 ! videoconvert ! videoscale ! videorate ! video/x-raw,format=",
        );
        description.append(settings.encoding.format.caps_format());
        description.append(",framerate=");
        push_signed(&mut description, resolved.fps as i64);
        description.append("/1,width=");
        push_signed(&mut description, resolved.size.0 as i64);
        description.append(",height=");
        push_signed(&mut description, resolved.size.1 as i64);
        description.append(",pixel-aspect-ratio=1/1 ! ");
        description.append(venc);
        description.append(" ! appsink name=vsink sync=false max-buffers=32 ");
    }
    let mut audio = "".to_owned();
    if let Some(monitor) = audio_monitor {
        audio = "pulsesrc device=".to_owned();
        audio.append(monitor);
        audio.append(
            " provide-clock=false ! queue ! audioconvert ! audioresample ! audio/x-raw,rate=",
        );
        push_signed(&mut audio, resolved.sample_rate as i64);
        audio.append(",channels=");
        push_signed(&mut audio, resolved.channels as i64);
        audio.append(" ! opusenc bitrate=");
        push_signed(&mut audio, resolved.audio_bitrate_bps as i64);
        audio.append(" ! appsink name=asink sync=false max-buffers=32");
    }
    description.append(audio.as_str());
    description
}

/// A presentation time in ticks of a timebase, around the end of the 32-bit numbers.
pub open spec fn rtp_ticks(pts_ns: nat, timebase: nat) -> int {
    (pts_ns * timebase) as int / 1_000_000_000 % 0x1_0000_0000
}

/// The RTP timestamp of a buffer.
pub fn rtp_timestamp(pts_ns: u64, timebase: u32) -> (ticks: u32)
    ensures
        ticks == rtp_ticks(pts_ns as nat, timebase as nat),
{
    assert(pts_ns * timebase <= u64::MAX * u32::MAX) by (nonlinear_arith);
    let ticks: u128 = pts_ns as u128 * timebase as u128 / 1_000_000_000;
    (ticks % 0x1_0000_0000) as u32
}

/// A chunk made of an encoded buffer: `pts` is its presentation time, if it has
/// one, `delta_unit` whether it builds on an earlier buffer, and `ntp` the time
/// it left the encoder.
pub fn encoded_chunk(
    kind: StreamKind,
    pts: Option<u64>,
    delta_unit: bool,
    timebase: u32,
    ntp: u64,
    data: Vec<u8>,
) -> (chunk: EncodedChunk)
    ensures
        chunk.kind == kind,
        chunk.is_key_frame == !delta_unit,
        chunk.rtp_timestamp == rtp_ticks(
            match pts {
                Some(at) => at as nat,
                None => 0,
            },
            timebase as nat,
        ),
        chunk.ntp_timestamp == ntp,
        chunk.data == data,
{
    let pts_ns: u64 = match pts {
        Some(at) => at,
        None => 0,
    };
    EncodedChunk {
        kind,
        is_key_frame: !delta_unit,
        rtp_timestamp: rtp_timestamp(pts_ns, timebase),
        ntp_timestamp: ntp,
        data,
    }
}

/// No two streams of an OFFER share a source id, whatever is drawn for them, as
/// long as there are ids left.
pub proof fn law_source_ids_are_distinct(i: int, j: int, a: u32, b: u32, audio: u32)
    requires
        0 <= i < j,
        VIDEO_SSRC_BASE + VIDEO_SSRC_STEP * j + SSRC_SPREAD <= 0x1_0000_0000,
        is_drawn_for(a, i),
        is_drawn_for(b, j),
        exists|drawn: u32| audio == #[trigger] ssrc_from(AUDIO_SSRC_BASE, drawn),
    ensures
        a != b,
        audio != a,
        audio != b,
{
}

/// The receiver's first choice among the accepted codecs is the one that is
/// sent: it heads the list of accepted codecs, and without it that list is empty.
pub proof fn law_the_preferred_accepted_codec_is_sent(
    answer: Answer,
    params: Seq<VideoParams>,
    codecs: Seq<VideoCodec>,
    video: Option<SelectedVideo>,
)
    requires
        video_selected(answer, params, codecs, video),
    ensures
        ({
            let names = accepted_names(answer, params, codecs, variant_count(params, codecs));
            match video {
                Some(video) => names.len() > 0 && names[0] == codec_text(video.codec),
                None => names.len() == 0,
            }
        }),
{
    match video {
        Some(video) => {
            let i = choose|i: int|
                {
                    &&& #[trigger] wants(answer, params, codecs, i)
                    &&& forall|j: int| 0 <= j < i ==> !#[trigger] wants(answer, params, codecs, j)
                    &&& video == (SelectedVideo {
                        codec: codecs[i],
                        ssrc: params[i].ssrc,
                        aes_key: params[i].aes_key,
                        aes_iv_mask: params[i].aes_iv_mask,
                    })
                };
            lemma_none_accepted(answer, params, codecs, i);
            lemma_first_accepted(answer, params, codecs, i, variant_count(params, codecs));
        },
        None => {
            lemma_none_accepted(answer, params, codecs, variant_count(params, codecs));
        },
    }
}

proof fn lemma_none_accepted(
    answer: Answer,
    params: Seq<VideoParams>,
    codecs: Seq<VideoCodec>,
    upto: int,
)
    requires
        forall|j: int| 0 <= j < upto ==> !#[trigger] wants(answer, params, codecs, j),
    ensures
        accepted_names(answer, params, codecs, upto).len() == 0,
    decreases upto,
{
    if upto > 0 {
        lemma_none_accepted(answer, params, codecs, upto - 1);
        assert(!wants(answer, params, codecs, upto - 1));
    }
}

proof fn lemma_first_accepted(
    answer: Answer,
    params: Seq<VideoParams>,
    codecs: Seq<VideoCodec>,
    first: int,
    upto: int,
)
    requires
        0 <= first < upto,
        wants(answer, params, codecs, first),
        accepted_names(answer, params, codecs, first).len() == 0,
    ensures
        accepted_names(answer, params, codecs, upto).len() > 0,
        accepted_names(answer, params, codecs, upto)[0] == codec_text(codecs[first]),
    decreases upto,
{
    if upto - 1 > first {
        lemma_first_accepted(answer, params, codecs, first, upto - 1);
    }
}

/// A second of presentation time is a whole timebase of ticks, at any time.
pub proof fn law_timestamps_follow_the_timebase(pts_ns: nat, timebase: nat)
    ensures
        rtp_ticks(pts_ns + 1_000_000_000, timebase) == (rtp_ticks(pts_ns, timebase) + timebase)
            % 0x1_0000_0000,
{
    let ticks = (pts_ns * timebase) as int / 1_000_000_000;
    assert((pts_ns + 1_000_000_000) * timebase == pts_ns * timebase + 1_000_000_000 * timebase)
        by (nonlinear_arith);
    let product = (pts_ns * timebase) as int;
    let step = timebase as int;
    assert((product + 1_000_000_000 * step) / 1_000_000_000 == product / 1_000_000_000 + step);
}

/// A forced choice that leaves no encoder ends the session with its reason; only
/// automatic settings fall back to another way of casting.
pub proof fn law_forced_choices_never_fall_back(
    settings: StreamSettings,
    offer: Result<Vec<VideoCodec>, Outcome>,
)
    requires
        offered_from(settings, Seq::empty(), offer),
    ensures
        settings.encoding != no_policy() || settings.video_codec is Some ==> offer matches Err(
            Outcome::Finished(Err(_)),
        ),
        settings.encoding == no_policy() && settings.video_codec is None ==> offer matches Err(
            Outcome::Unavailable(_),
        ),
{
}

/// A video stream comes first and an audio stream after it, each at most once.
pub proof fn law_one_stream_of_each_kind(
    video: Option<SelectedVideo>,
    audio: Option<StreamKeys>,
    video_payload_type: u8,
    audio_payload_type: u8,
    i: int,
    j: int,
)
    requires
        0 <= i < j < configs_for(video, audio, video_payload_type, audio_payload_type).len(),
    ensures
        ({
            let configs = configs_for(video, audio, video_payload_type, audio_payload_type);
            configs[i].kind == StreamKind::Video && configs[j].kind == StreamKind::Audio
        }),
{
}

/// What comes before a character is known by it: two texts with it between their
/// parts are the same only when their parts are.
#[verifier::spinoff_prover]
pub proof fn lemma_cut_at(a: Seq<char>, b: Seq<char>, c: char, x: Seq<char>, y: Seq<char>)
    requires
        !a.contains(c),
        !b.contains(c),
        a.push(c) + x == b.push(c) + y,
    ensures
        a == b,
        x == y,
{
    let left = a.push(c) + x;
    let right = b.push(c) + y;
    if a.len() < b.len() {
        assert(left[a.len() as int] == c);
        assert(right[a.len() as int] == b[a.len() as int]);
        assert(b.contains(b[a.len() as int]));
    } else if b.len() < a.len() {
        assert(right[b.len() as int] == c);
        assert(left[b.len() as int] == a[b.len() as int]);
        assert(a.contains(a[b.len() as int]));
    }
    assert(a.len() == b.len());
    assert(left.take(a.len() as int) =~= a);
    assert(right.take(b.len() as int) =~= b);
    assert(left.skip(a.len() as int + 1) =~= x);
    assert(right.skip(b.len() as int + 1) =~= y);
}

/// A number has no comma in it, and no slash.
proof fn lemma_no_comma(n: int)
    ensures
        !signed_decimal(n).contains(','),
        !signed_decimal(n).contains('/'),
        !signed_decimal(n).contains(' '),
{
    law_signs_come_first(n);
    let text = signed_decimal(n);
    assert forall|i: int| 0 <= i < text.len() implies text[i] != ',' && text[i] != '/' && text[i]
        != ' ' by {
        if n < 0 && i > 0 {
            assert(text.skip(1)[i - 1] == text[i]);
        }
    }
}

/// The raw video that is fed to the encoder, as the pipeline names it: the frame
/// rate, the width and the height.
pub open spec fn raw_caps(fps: int, width: int, height: int) -> Seq<char> {
    ",framerate="@ + signed_decimal(fps) + "/1,width="@ + signed_decimal(width) + ",height="@
        + signed_decimal(height) + ","@
}

/// The pipeline reads the screen from where it is captured, brings it to the
/// size and the frame rate that were negotiated and to the raw format that was
/// chosen, and hands it to the encoder that was picked, and what that makes to
/// the video sink. Without a capture or without an encoder there is no video.
pub proof fn law_video_has_the_negotiated_size(
    capture: Option<(i32, u32)>,
    settings: &StreamSettings,
    resolved: &Resolved,
    video_encoder: Option<&str>,
    audio_monitor: Option<&str>,
    description: String,
)
    requires
        call_ensures(
            build_pipeline,
            (capture, settings, resolved, video_encoder, audio_monitor),
            description,
        ),
    ensures
        capture is Some && video_encoder is Some ==> {
            let (fd, node) = capture->Some_0;
            let caps = raw_caps(
                resolved.fps as int,
                resolved.size.0 as int,
                resolved.size.1 as int,
            );
            &&& begins(
                description@,
                "pipewiresrc fd="@ + signed_decimal(fd as int) + " path="@ + decimal(node as nat)
                    + " "@,
            )
            &&& occurs(description@, caps)
            &&& occurs(
                description@,
                "video/x-raw,format="@ + (match settings.encoding.format {
                    FormatPolicy::Auto => "{NV12,I420}"@,
                    FormatPolicy::Nv12 => "NV12"@,
                    FormatPolicy::I420 => "I420"@,
                }) + caps,
            )
            &&& occurs(
                description@,
                " ! "@ + video_encoder->Some_0@ + " ! appsink name=vsink "@,
            )
        },
        (capture is None || video_encoder is None) && audio_monitor is None ==> description@.len()
            == 0,
{
    if capture is Some && video_encoder is Some {
        let (fd, node) = capture->Some_0;
        let venc = video_encoder->Some_0@;
        let text = description@;
        let audio = match str_in(audio_monitor) {
            Some(monitor) => mirror_audio_branch(monitor, *resolved),
            None => ""@,
        };
        let head = "pipewiresrc fd="@ + signed_decimal(fd as int) + " path="@ + decimal(
            node as nat,
        );
        let format = caps_text(settings.encoding.format);
        let caps = raw_caps(resolved.fps as int, resolved.size.0 as int, resolved.size.1 as int);
        let (after_blank, before_raw) = lemma_source_words();
        let (after_comma, before_arrow) = lemma_ratio_words();
        let after_name = lemma_sink_words();
        lemma_video_words(fd, node, *settings, *resolved, venc, after_comma);
        let front = head + source_words() + format + caps;
        let back = after_comma + venc + video_sink() + audio;
        assert(text =~= front + back) by {
            assert(text == (front + after_comma + venc + video_sink()) + audio);
        }
        lemma_in_front(head, " "@, after_blank, format + caps + back);
        assert(text =~= head + source_words() + (format + caps + back));
        lemma_between(head + source_words() + format, caps, back);
        assert(text =~= (head + source_words() + format) + caps + back);
        lemma_between(head + before_raw, "video/x-raw,format="@ + format + caps, back);
        assert(text =~= (head + before_raw) + ("video/x-raw,format="@ + format + caps) + back)
            by {
            assert(head + (before_raw + "video/x-raw,format="@) + format + caps =~= head
                + before_raw + ("video/x-raw,format="@ + format + caps));
        }
        assert(caps.skip(caps.len() - ","@.len()) =~= ","@);
        assert(front.skip(front.len() - ","@.len()) =~= caps.skip(caps.len() - ","@.len()));
        lemma_to_the_sink(
            front,
            before_arrow,
            after_comma,
            venc,
            " ! appsink name=vsink "@,
            after_name,
            audio,
        );
    } else if audio_monitor is None {
        reveal_strlit("");
    }
}

proof fn lemma_in_front(head: Seq<char>, blank: Seq<char>, after: Seq<char>, rest: Seq<char>)
    ensures
        begins(head + (blank + after) + rest, head + blank),
{
    let text = head + (blank + after) + rest;
    assert(text.take((head + blank).len() as int) =~= head + blank);
}

proof fn lemma_between(before: Seq<char>, part: Seq<char>, after: Seq<char>)
    ensures
        occurs(before + part + after, part),
{
}

/// The encoder stands between an arrow and the sink.
proof fn lemma_to_the_sink(
    front: Seq<char>,
    before_arrow: Seq<char>,
    after_comma: Seq<char>,
    venc: Seq<char>,
    named: Seq<char>,
    after_name: Seq<char>,
    audio: Seq<char>,
)
    requires
        front.len() >= ","@.len(),
        front.skip(front.len() - ","@.len()) == ","@,
        ","@ + after_comma == before_arrow + " ! "@,
    ensures
        occurs(
            front + (after_comma + venc + (named + after_name) + audio),
            " ! "@ + venc + named,
        ),
{
    let bare = front.take(front.len() - ","@.len());
    assert(front =~= bare + ","@);
    assert(front + after_comma =~= bare + (before_arrow + " ! "@));
    let text = front + (after_comma + venc + (named + after_name) + audio);
    assert(text =~= (front + after_comma) + (venc + named) + (after_name + audio));
    assert(text =~= (bare + before_arrow) + (" ! "@ + venc + named) + (after_name + audio));
}

/// What leads from the capture to the raw format.
spec fn source_words() -> Seq<char> {
    " do-timestamp=true keepalive-time=1000 resend-last=true ! queue leaky=downstream max-size-buffers=3 max-size-bytes=0 max-size-time=0 ! videoconvert ! videoscale ! videorate ! video/x-raw,format="@
}

/// What leads from the encoder to the video sink.
spec fn video_sink() -> Seq<char> {
    " ! appsink name=vsink sync=false max-buffers=32 "@
}

proof fn lemma_source_words() -> (parts: (Seq<char>, Seq<char>))
    ensures
        source_words() == " "@ + parts.0,
        source_words() == parts.1 + "video/x-raw,format="@,
{
    reveal_strlit(
        " do-timestamp=true keepalive-time=1000 resend-last=true ! queue leaky=downstream max-size-buffers=3 max-size-bytes=0 max-size-time=0 ! videoconvert ! videoscale ! videorate ! video/x-raw,format=",
    );
    reveal_strlit("video/x-raw,format=");
    reveal_strlit(" ");
    let words = source_words();
    let raw = "video/x-raw,format="@;
    assert(words =~= " "@ + words.skip(1));
    assert(words =~= words.take(words.len() - raw.len()) + raw);
    (words.skip(1), words.take(words.len() - raw.len()))
}

proof fn lemma_ratio_words() -> (parts: (Seq<char>, Seq<char>))
    ensures
        ",pixel-aspect-ratio=1/1 ! "@ == ","@ + parts.0,
        ",pixel-aspect-ratio=1/1 ! "@ == parts.1 + " ! "@,
{
    reveal_strlit(",pixel-aspect-ratio=1/1 ! ");
    reveal_strlit(" ! ");
    reveal_strlit(",");
    let words = ",pixel-aspect-ratio=1/1 ! "@;
    assert(words =~= ","@ + words.skip(1));
    assert(words =~= words.take(words.len() - 3) + " ! "@);
    (words.skip(1), words.take(words.len() - 3))
}

proof fn lemma_sink_words() -> (rest: Seq<char>)
    ensures
        video_sink() == " ! appsink name=vsink "@ + rest,
{
    reveal_strlit(" ! appsink name=vsink sync=false max-buffers=32 ");
    reveal_strlit(" ! appsink name=vsink ");
    let named = " ! appsink name=vsink "@;
    let rest = video_sink().skip(named.len() as int);
    assert(video_sink() =~= named + rest);
    rest
}

proof fn lemma_video_words(
    fd: i32,
    node: u32,
    settings: StreamSettings,
    resolved: Resolved,
    venc: Seq<char>,
    after_comma: Seq<char>,
)
    requires
        ",pixel-aspect-ratio=1/1 ! "@ == ","@ + after_comma,
    ensures
        mirror_video_branch(fd, node, settings, resolved, venc) == "pipewiresrc fd="@
            + signed_decimal(fd as int) + " path="@ + decimal(node as nat) + source_words()
            + caps_text(settings.encoding.format) + raw_caps(
            resolved.fps as int,
            resolved.size.0 as int,
            resolved.size.1 as int,
        ) + after_comma + venc + video_sink(),
{
    let front = "pipewiresrc fd="@ + signed_decimal(fd as int) + " path="@ + decimal(node as nat)
        + source_words() + caps_text(settings.encoding.format);
    let caps = raw_caps(resolved.fps as int, resolved.size.0 as int, resolved.size.1 as int);
    let bare = ",framerate="@ + signed_decimal(resolved.fps as int) + "/1,width="@
        + signed_decimal(resolved.size.0 as int) + ",height="@ + signed_decimal(
        resolved.size.1 as int,
    );
    assert(caps == bare + ","@);
    assert(front + ",framerate="@ + signed_decimal(resolved.fps as int) + "/1,width="@
        + signed_decimal(resolved.size.0 as int) + ",height="@ + signed_decimal(
        resolved.size.1 as int,
    ) =~= front + bare);
    assert(front + bare + ",pixel-aspect-ratio=1/1 ! "@ =~= front + caps + after_comma);
}

/// Pipelines for different sizes are different, whatever else they share, and so
/// are pipelines for different frame rates.
pub proof fn law_sizes_are_told_apart(
    fd: i32,
    node: u32,
    settings: &StreamSettings,
    first: &Resolved,
    second: &Resolved,
    venc: &str,
    audio_monitor: Option<&str>,
    one: String,
    other: String,
)
    requires
        call_ensures(
            build_pipeline,
            (Some((fd, node)), settings, first, Some(venc), audio_monitor),
            one,
        ),
        call_ensures(
            build_pipeline,
            (Some((fd, node)), settings, second, Some(venc), audio_monitor),
            other,
        ),
        first.size != second.size || first.fps != second.fps,
    ensures
        one@ != other@,
{
    let head = "pipewiresrc fd="@ + signed_decimal(fd as int) + " path="@ + decimal(node as nat)
        + " do-timestamp=true keepalive-time=1000 resend-last=true ! queue leaky=downstream max-size-buffers=3 max-size-bytes=0 max-size-time=0 ! videoconvert ! videoscale ! videorate ! video/x-raw,format="@
        + caps_text(settings.encoding.format) + ",framerate="@;
    if one@ == other@ {
        let a = lemma_after_size(fd, node, settings, first, venc, audio_monitor);
        let b = lemma_after_size(fd, node, settings, second, venc, audio_monitor);
        assert(one@ == head + a);
        assert(other@ == head + b);
        assert(a =~= one@.skip(head.len() as int));
        assert(b =~= other@.skip(head.len() as int));
        lemma_caps_are_told_apart(first, second, a, b, venc@, audio_monitor);
    }
}

/// What follows the name of the frame rate in a video pipeline.
spec fn after_framerate(resolved: Resolved, rest: Seq<char>) -> Seq<char> {
    signed_decimal(resolved.fps as int) + "/1,width="@ + signed_decimal(resolved.size.0 as int)
        + ",height="@ + signed_decimal(resolved.size.1 as int) + ",pixel-aspect-ratio=1/1 ! "@
        + rest
}

spec fn after_caps(resolved: Resolved, venc: Seq<char>, audio_monitor: Option<&str>) -> Seq<char> {
    venc + " ! appsink name=vsink sync=false max-buffers=32 "@ + match str_in(audio_monitor) {
        Some(monitor) => mirror_audio_branch(monitor, resolved),
        None => ""@,
    }
}

proof fn lemma_after_size(
    fd: i32,
    node: u32,
    settings: &StreamSettings,
    resolved: &Resolved,
    venc: &str,
    audio_monitor: Option<&str>,
) -> (tail: Seq<char>)
    ensures
        tail == after_framerate(*resolved, after_caps(*resolved, venc@, audio_monitor)),
        mirror_text(
            Some((fd, node)),
            *settings,
            *resolved,
            str_in(Some(venc)),
            str_in(audio_monitor),
        ) == ("pipewiresrc fd="@ + signed_decimal(fd as int) + " path="@ + decimal(node as nat)
            + " do-timestamp=true keepalive-time=1000 resend-last=true ! queue leaky=downstream max-size-buffers=3 max-size-bytes=0 max-size-time=0 ! videoconvert ! videoscale ! videorate ! video/x-raw,format="@
            + caps_text(settings.encoding.format) + ",framerate="@) + tail,
{
    let tail = after_framerate(*resolved, after_caps(*resolved, venc@, audio_monitor));
    let head = "pipewiresrc fd="@ + signed_decimal(fd as int) + " path="@ + decimal(node as nat)
        + " do-timestamp=true keepalive-time=1000 resend-last=true ! queue leaky=downstream max-size-buffers=3 max-size-bytes=0 max-size-time=0 ! videoconvert ! videoscale ! videorate ! video/x-raw,format="@
        + caps_text(settings.encoding.format) + ",framerate="@;
    assert(mirror_text(
        Some((fd, node)),
        *settings,
        *resolved,
        str_in(Some(venc)),
        str_in(audio_monitor),
    ) =~= head + tail);
    tail
}

proof fn lemma_caps_are_told_apart(
    first: &Resolved,
    second: &Resolved,
    a: Seq<char>,
    b: Seq<char>,
    venc: Seq<char>,
    audio_monitor: Option<&str>,
)
    requires
        a == b,
        a == after_framerate(*first, after_caps(*first, venc, audio_monitor)),
        b == after_framerate(*second, after_caps(*second, venc, audio_monitor)),
    ensures
        first.fps == second.fps,
        first.size == second.size,
{
    let (f1, w1, h1) = (
        signed_decimal(first.fps as int),
        signed_decimal(first.size.0 as int),
        signed_decimal(first.size.1 as int),
    );
    let (f2, w2, h2) = (
        signed_decimal(second.fps as int),
        signed_decimal(second.size.0 as int),
        signed_decimal(second.size.1 as int),
    );
    lemma_no_comma(first.fps as int);
    lemma_no_comma(first.size.0 as int);
    lemma_no_comma(first.size.1 as int);
    lemma_no_comma(second.fps as int);
    lemma_no_comma(second.size.0 as int);
    lemma_no_comma(second.size.1 as int);
    let (width, height, ratio) = lemma_caps_words();
    let z1 = ratio + after_caps(*first, venc, audio_monitor);
    let z2 = ratio + after_caps(*second, venc, audio_monitor);
    let y1 = h1.push(',') + z1;
    let y2 = h2.push(',') + z2;
    let x1 = w1.push(',') + (height + y1);
    let x2 = w2.push(',') + (height + y2);
    lemma_caps_apart(f1, w1, h1, width, height, ratio, after_caps(*first, venc, audio_monitor));
    lemma_caps_apart(f2, w2, h2, width, height, ratio, after_caps(*second, venc, audio_monitor));
    assert(a == f1.push('/') + (width + x1));
    assert(b == f2.push('/') + (width + x2));
    lemma_cut_at(f1, f2, '/', width + x1, width + x2);
    lemma_same_rest(width, x1, x2);
    lemma_cut_at(w1, w2, ',', height + y1, height + y2);
    lemma_same_rest(height, y1, y2);
    lemma_cut_at(h1, h2, ',', z1, z2);
    if first.fps != second.fps {
        law_numbers_are_told_apart(first.fps as int, second.fps as int);
    }
    if first.size.0 != second.size.0 {
        law_numbers_are_told_apart(first.size.0 as int, second.size.0 as int);
    }
    if first.size.1 != second.size.1 {
        law_numbers_are_told_apart(first.size.1 as int, second.size.1 as int);
    }
}

proof fn lemma_same_rest(ahead: Seq<char>, x: Seq<char>, y: Seq<char>)
    requires
        ahead + x == ahead + y,
    ensures
        x == y,
{
    assert(x =~= (ahead + x).skip(ahead.len() as int));
    assert(y =~= (ahead + y).skip(ahead.len() as int));
}

proof fn lemma_caps_words() -> (parts: (Seq<char>, Seq<char>, Seq<char>))
    ensures
        "/1,width="@ == seq!['/'] + parts.0,
        ",height="@ == seq![','] + parts.1,
        ",pixel-aspect-ratio=1/1 ! "@ == seq![','] + parts.2,
{
    reveal_strlit("/1,width=");
    reveal_strlit(",height=");
    reveal_strlit(",pixel-aspect-ratio=1/1 ! ");
    assert("/1,width="@ =~= seq!['/'] + "/1,width="@.skip(1));
    assert(",height="@ =~= seq![','] + ",height="@.skip(1));
    assert(",pixel-aspect-ratio=1/1 ! "@ =~= seq![','] + ",pixel-aspect-ratio=1/1 ! "@.skip(1));
    ("/1,width="@.skip(1), ",height="@.skip(1), ",pixel-aspect-ratio=1/1 ! "@.skip(1))
}

proof fn lemma_caps_apart(
    f: Seq<char>,
    w: Seq<char>,
    h: Seq<char>,
    width: Seq<char>,
    height: Seq<char>,
    ratio: Seq<char>,
    rest: Seq<char>,
)
    requires
        "/1,width="@ == seq!['/'] + width,
        ",height="@ == seq![','] + height,
        ",pixel-aspect-ratio=1/1 ! "@ == seq![','] + ratio,
    ensures
        f + "/1,width="@ + w + ",height="@ + h + ",pixel-aspect-ratio=1/1 ! "@ + rest == f.push('/')
            + (width + (w.push(',') + (height + (h.push(',') + (ratio + rest))))),
{
    assert(f + (seq!['/'] + width) + w + (seq![','] + height) + h + (seq![','] + ratio) + rest
        =~= f.push('/') + (width + (w.push(',') + (height + (h.push(',') + (ratio + rest))))));
}

/// The audio of a session comes from its monitor, at the sample rate and with
/// the channels that were negotiated, and is encoded at the negotiated bitrate.
pub proof fn law_audio_has_the_negotiated_rate(
    capture: Option<(i32, u32)>,
    settings: &StreamSettings,
    resolved: &Resolved,
    video_encoder: Option<&str>,
    monitor: &str,
    description: String,
)
    requires
        call_ensures(
            build_pipeline,
            (capture, settings, resolved, video_encoder, Some(monitor)),
            description,
        ),
    ensures
        occurs(description@, "pulsesrc device="@ + monitor@ + " provide-clock=false ! "@),
        occurs(
            description@,
            "audio/x-raw,rate="@ + signed_decimal(resolved.sample_rate as int) + ",channels="@
                + signed_decimal(resolved.channels as int) + " ! opusenc bitrate="@
                + signed_decimal(resolved.audio_bitrate_bps as int) + " ! appsink name=asink "@,
        ),
{
    let text = description@;
    let video = match (capture, str_in(video_encoder)) {
        (Some((fd, node)), Some(venc)) => mirror_video_branch(
            fd,
            node,
            *settings,
            *resolved,
            venc,
        ),
        _ => ""@,
    };
    let long = " provide-clock=false ! queue ! audioconvert ! audioresample ! audio/x-raw,rate="@;
    let sink = " ! appsink name=asink sync=false max-buffers=32"@;
    reveal_strlit(
        " provide-clock=false ! queue ! audioconvert ! audioresample ! audio/x-raw,rate=",
    );
    reveal_strlit(" provide-clock=false ! ");
    reveal_strlit("audio/x-raw,rate=");
    reveal_strlit(" ! appsink name=asink sync=false max-buffers=32");
    reveal_strlit(" ! appsink name=asink ");
    let clock = " provide-clock=false ! "@;
    let raw = "audio/x-raw,rate="@;
    let named = " ! appsink name=asink "@;
    assert(long =~= clock + long.skip(clock.len() as int));
    let ahead = long.take(long.len() - raw.len());
    assert(long =~= ahead + raw);
    assert(sink =~= named + sink.skip(named.len() as int));
    let middle = signed_decimal(resolved.sample_rate as int) + ",channels="@ + signed_decimal(
        resolved.channels as int,
    ) + " ! opusenc bitrate="@ + signed_decimal(resolved.audio_bitrate_bps as int);
    let device = "pulsesrc device="@ + monitor@ + clock;
    assert(text =~= video + device + (long.skip(clock.len() as int) + middle + sink));
    let shown = raw + signed_decimal(resolved.sample_rate as int) + ",channels="@ + signed_decimal(
        resolved.channels as int,
    ) + " ! opusenc bitrate="@ + signed_decimal(resolved.audio_bitrate_bps as int) + named;
    assert(text =~= (video + "pulsesrc device="@ + monitor@ + ahead) + shown + sink.skip(
        named.len() as int,
    ));
}

/// The video that is sent is the first variant of the offer whose index the
/// receiver asks for, with the keys that were offered for it.
pub proof fn law_the_first_variant_asked_for_is_sent(
    answer: &Answer,
    params: &Vec<VideoParams>,
    codecs: &Vec<VideoCodec>,
    video: Option<SelectedVideo>,
    i: int,
)
    requires
        call_ensures(select_video, (answer, params, codecs), video),
        params@.len() == codecs@.len(),
        0 <= i < params@.len(),
        answer.send_indexes@.contains(params@[i].index),
    ensures
        video is Some,
        (forall|j: int|
            0 <= j < i ==> !answer.send_indexes@.contains((#[trigger] params@[j]).index))
            ==> video == Some(
            SelectedVideo {
                codec: codecs@[i],
                ssrc: params@[i].ssrc,
                aes_key: params@[i].aes_key,
                aes_iv_mask: params@[i].aes_iv_mask,
            },
        ),
{
    assert(wants(*answer, params@, codecs@, i));
    if forall|j: int|
        0 <= j < i ==> !answer.send_indexes@.contains((#[trigger] params@[j]).index) {
        let k = choose|k: int|
            {
                &&& #[trigger] wants(*answer, params@, codecs@, k)
                &&& forall|j: int| 0 <= j < k ==> !#[trigger] wants(*answer, params@, codecs@, j)
                &&& video->Some_0 == (SelectedVideo {
                    codec: codecs@[k],
                    ssrc: params@[k].ssrc,
                    aes_key: params@[k].aes_key,
                    aes_iv_mask: params@[k].aes_iv_mask,
                })
            };
        if k < i {
            assert(!answer.send_indexes@.contains(params@[k].index));
        } else if i < k {
            assert(!wants(*answer, params@, codecs@, i));
        }
    }
}

/// No video is sent to a receiver that asks for none of the variants.
pub proof fn law_no_variant_is_sent_unasked(
    answer: &Answer,
    params: &Vec<VideoParams>,
    codecs: &Vec<VideoCodec>,
    video: Option<SelectedVideo>,
)
    requires
        call_ensures(select_video, (answer, params, codecs), video),
        forall|i: int|
            0 <= i < params@.len() ==> !answer.send_indexes@.contains(
                (#[trigger] params@[i]).index,
            ),
    ensures
        video is None,
{
    if video is Some {
        let k = choose|k: int| #[trigger] wants(*answer, params@, codecs@, k);
        assert(!answer.send_indexes@.contains(params@[k].index));
    }
}

/// Every codec that can be encoded becomes a variant of the offer, in order and
/// numbered from 1 on, with its keys and with the size, the frame rate and the
/// bitrate that go for all.
pub proof fn law_every_codec_is_a_variant(
    codecs: &Vec<VideoCodec>,
    keys: &Vec<StreamKeys>,
    size: (i32, i32),
    fps: i32,
    video_bps: u32,
    params: Vec<VideoParams>,
    i: int,
)
    requires
        call_ensures(video_params_from, (codecs, keys, size, fps, video_bps), params),
        0 <= i < codecs@.len(),
    ensures
        params@.len() == codecs@.len(),
        ({
            let variant = params@[i];
            &&& i < 0xffff_ffff ==> variant.index == i + 1
            &&& i == 0xffff_ffff ==> variant.index == i
            &&& i > 0xffff_ffff ==> variant.index == 1
            &&& variant.codec_name@ == match codecs@[i] {
                VideoCodec::Vp8 => "vp8"@,
                VideoCodec::Vp9 => "vp9"@,
                VideoCodec::Av1 => "av1"@,
                VideoCodec::H264 => "h264"@,
            }
            &&& variant.ssrc == keys@[i].ssrc
            &&& variant.aes_key == keys@[i].aes_key
            &&& variant.aes_iv_mask == keys@[i].aes_iv_mask
            &&& variant.max_bit_rate == video_bps
            &&& variant.max_fps == if fps < 0 {
                0
            } else {
                fps as int
            }
            &&& variant.width == if size.0 < 0 {
                0
            } else {
                size.0 as int
            }
            &&& variant.height == if size.1 < 0 {
                0
            } else {
                size.1 as int
            }
        }),
{
    assert(is_variant(params@[i], i, codecs@[i], size, fps, video_bps));
}

/// The source ids that are drawn for the variants start at 50000, a thousand for
/// each, and past the last of them at the end of the 32-bit numbers.
pub proof fn law_variants_draw_from_their_own_thousand(
    codecs: &Vec<VideoCodec>,
    size: (i32, i32),
    fps: i32,
    video_bps: u32,
    params: Vec<VideoParams>,
    i: int,
)
    requires
        call_ensures(video_params, (codecs, size, fps, video_bps), params),
        0 <= i < codecs@.len(),
    ensures
        params@.len() == codecs@.len(),
        i < 4_000_000 ==> 50_000 + 1_000 * i <= params@[i].ssrc < 51_000 + 1_000 * i,
        i < 4_000_000 ==> params@[i].index == i + 1,
        50_000 + 1_000 * i > 0xffff_ffff && i <= 0xffff_ffff ==> params@[i].ssrc == 0xffff_ffff
            || params@[i].ssrc < 999,
        i > 0xffff_ffff ==> 50_000 <= params@[i].ssrc < 51_000,
        params@[i].max_bit_rate == video_bps,
        params@[i].codec_name@ == codec_text(codecs@[i]),
        params@[i].max_fps == fps || (params@[i].max_fps == 0 && fps < 0),
        params@[i].width == size.0 || (params@[i].width == 0 && size.0 < 0),
        params@[i].height == size.1 || (params@[i].height == 0 && size.1 < 0),
{
    assert(is_drawn_for(params@[i].ssrc, i));
    let drawn = choose|drawn: u32|
        params@[i].ssrc == #[trigger] ssrc_from(video_ssrc_base(i), drawn);
    assert(is_variant(params@[i], i, codecs@[i], size, fps, video_bps));
}

/// What comes of an answer. Audio is sent when it was offered and asked for. A
/// screen cast ends without video, any other without audio, and either when no
/// encoder is left for the video that was asked for; otherwise the session goes
/// on with the encoder for that, at the bitrate and the frame rate negotiated.
pub proof fn law_sessions_send_what_was_agreed<F: Fn(&str, Probe) -> bool>(
    answer: &Answer,
    params: &Vec<VideoParams>,
    codecs: &Vec<VideoCodec>,
    audio_offered: bool,
    has_capture: bool,
    settings: &StreamSettings,
    resolved: &Resolved,
    registry: &Registry,
    try_out: &F,
    selected: Result<Selected, String>,
)
    requires
        call_ensures(
            select_streams::<F>,
            (
                answer,
                params,
                codecs,
                audio_offered,
                has_capture,
                settings,
                resolved,
                registry,
                try_out,
            ),
            selected,
        ),
        params@.len() == codecs@.len(),
        0 <= resolved.video_bitrate_kbps <= 4_000_000,
        resolved.fps >= 0,
    ensures
        ({
            let audio = audio_offered && answer.send_indexes@.contains(0);
            let video = exists|i: int|
                0 <= i < params@.len() && answer.send_indexes@.contains(
                    (#[trigger] params@[i]).index,
                );
            match selected {
                Ok(picked) => {
                    &&& picked.audio == audio
                    &&& picked.video is Some <==> video
                    &&& picked.encoder is Some <==> video
                    &&& has_capture ==> video
                    &&& !has_capture ==> audio
                    &&& picked.video matches Some(chosen) ==> encoder_picked(
                        *try_out,
                        chosen.codec,
                        (1_000 * resolved.video_bitrate_kbps) as u32,
                        resolved.fps as u32,
                        settings.encoding,
                        registry,
                        picked.encoder,
                    )
                },
                Err(_) => {
                    ||| has_capture && !video
                    ||| !has_capture && !audio
                    ||| video && exists|chosen: SelectedVideo|
                        #[trigger] video_selected(*answer, params@, codecs@, Some(chosen))
                            && encoder_picked(
                            *try_out,
                            chosen.codec,
                            (1_000 * resolved.video_bitrate_kbps) as u32,
                            resolved.fps as u32,
                            settings.encoding,
                            registry,
                            None,
                        )
                },
            }
        }),
{
    let video = exists|i: int|
        0 <= i < params@.len() && answer.send_indexes@.contains((#[trigger] params@[i]).index);
    if video {
        let i = choose|i: int|
            0 <= i < params@.len() && answer.send_indexes@.contains((#[trigger] params@[i]).index);
        assert(wants(*answer, params@, codecs@, i));
    }
    assert forall|i: int| #[trigger] wants(*answer, params@, codecs@, i) implies video by {
        assert(answer.send_indexes@.contains(params@[i].index));
    }
}

/// The streams of a session: the video that was agreed on and then the audio,
/// each with its own ids, keys and payload type, and none that was not agreed on.
pub proof fn law_streams_are_set_up_as_agreed(
    video: Option<SelectedVideo>,
    audio: Option<StreamKeys>,
    video_payload_type: u8,
    audio_payload_type: u8,
    configs: Vec<StreamConfig>,
)
    requires
        call_ensures(
            stream_configs,
            (video, audio, video_payload_type, audio_payload_type),
            configs,
        ),
    ensures
        configs@.len() == (if video is Some {
            1int
        } else {
            0
        }) + (if audio is Some {
            1int
        } else {
            0
        }),
        video matches Some(chosen) ==> {
            let first = configs@[0];
            &&& first.kind is Video
            &&& first.ssrc == chosen.ssrc
            &&& first.aes_key == chosen.aes_key
            &&& first.aes_iv_mask == chosen.aes_iv_mask
            &&& first.payload_type == video_payload_type
        },
        audio matches Some(keys) ==> {
            let last = configs@.last();
            &&& last.kind is Audio
            &&& last.ssrc == keys.ssrc
            &&& last.aes_key == keys.aes_key
            &&& last.aes_iv_mask == keys.aes_iv_mask
            &&& last.payload_type == audio_payload_type
        },
{
}

/// A bitrate in kilobits is a thousand times as many bits.
pub proof fn law_kilobits_are_a_thousand_bits(kbps: i32, bps: u32)
    requires
        call_ensures(bits_per_second, (kbps,), bps),
    ensures
        0 <= kbps && 1_000 * kbps <= u32::MAX ==> bps == 1_000 * kbps,
        1_000 * kbps > u32::MAX ==> bps == u32::MAX,
        kbps < 0 ==> bps == 0,
{
}

/// The bitrate may move from the negotiated one, between the negotiated bounds,
/// and only when the user chose none; the size from the negotiated one, down to
/// 320 by 180, and only when the user chose none.
pub proof fn law_control_stays_within_the_agreement<
    F: Fn((i32, i32), (i32, i32), (i32, i32)) -> Vec<(i32, i32)>,
>(settings: &StreamSettings, resolved: &Resolved, snap: &F, control: RateControl)
    requires
        call_ensures(rate_control::<F>, (settings, resolved, snap), control),
        0 <= resolved.video_bitrate_kbps <= 4_000_000,
    ensures
        control.start_bps == 1_000 * resolved.video_bitrate_kbps,
        resolved.video_min_bitrate_bps >= 0 ==> control.min_bps == resolved.video_min_bitrate_bps,
        resolved.video_min_bitrate_bps < 0 ==> control.min_bps == 300_000,
        resolved.video_max_bitrate_bps >= 0 ==> control.max_bps == resolved.video_max_bitrate_bps,
        resolved.video_max_bitrate_bps < 0 ==> control.max_bps == control.start_bps,
        control.set_bitrate <==> settings.bitrate_kbps is None,
        control.set_size <==> settings.size is None,
        control.start_size == resolved.size,
        call_ensures(*snap, (resolved.size, (320, 180), resolved.size), control.sizes),
{
}

/// The codecs that can be encoded are offered as they are. Where there are none,
/// the session ends with the reason when the user's choices are to blame, and
/// leaves the way open for another kind of cast when they are not. The reason
/// names the codec that was forced, or else the preference that was set.
pub proof fn law_choices_are_not_worked_around(
    settings: &StreamSettings,
    codecs: Vec<VideoCodec>,
    offer: Result<Vec<VideoCodec>, Outcome>,
    advice: String,
    forced: VideoCodec,
    name: &'static str,
)
    requires
        call_ensures(offer_from, (settings, codecs), offer),
        call_ensures(policy_failure_message, (settings.encoding,), advice),
        call_ensures(VideoCodec::codec_name, (forced,), name),
        settings.video_codec is Some ==> settings.video_codec == Some(forced),
    ensures
        codecs@.len() > 0 ==> offer is Ok && offer->Ok_0@ == codecs@,
        codecs@.len() == 0 ==> {
            let automatic = settings.encoding.encoder is Auto && settings.encoding.format is Auto
                && settings.video_codec is None;
            match offer {
                Err(Outcome::Unavailable(message)) => automatic && message@ == advice@,
                Err(Outcome::Finished(Err(message))) => !automatic && message@
                    == if settings.video_codec is Some {
                    "no "@ + name@ + " encoder matches the selected encoder and pixel format"@
                } else {
                    advice@
                },
                _ => false,
            }
        },
{
}

/// How many of the first variants a receiver asks for.
pub open spec fn asked_before(answer: Answer, params: Seq<VideoParams>, upto: int) -> nat
    decreases upto,
{
    if upto <= 0 {
        0
    } else if answer.send_indexes@.contains(params[upto - 1].index) {
        asked_before(answer, params, upto - 1) + 1
    } else {
        asked_before(answer, params, upto - 1)
    }
}

proof fn lemma_accepted(
    answer: Answer,
    params: Seq<VideoParams>,
    codecs: Seq<VideoCodec>,
    upto: int,
)
    requires
        0 <= upto <= params.len(),
        upto <= codecs.len(),
    ensures
        accepted_names(answer, params, codecs, upto).len() == asked_before(answer, params, upto),
        forall|i: int|
            0 <= i < upto && answer.send_indexes@.contains((#[trigger] params[i]).index)
                ==> asked_before(answer, params, i) < asked_before(answer, params, upto)
                && accepted_names(answer, params, codecs, upto)[asked_before(
                answer,
                params,
                i,
            ) as int] == codec_text(codecs[i]),
    decreases upto,
{
    if upto > 0 {
        lemma_accepted(answer, params, codecs, upto - 1);
        assert(wants(answer, params, codecs, upto - 1) == answer.send_indexes@.contains(
            params[upto - 1].index,
        ));
    }
}

/// The accepted codecs are named one for each variant that the receiver asks
/// for, in the order of the offer.
pub proof fn law_accepted_codecs_are_named(
    answer: &Answer,
    params: &Vec<VideoParams>,
    codecs: &Vec<VideoCodec>,
    names: Vec<String>,
    i: int,
)
    requires
        call_ensures(accepted_codec_names, (answer, params, codecs), names),
        params@.len() == codecs@.len(),
        0 <= i < params@.len(),
    ensures
        names@.len() == asked_before(*answer, params@, params@.len() as int),
        answer.send_indexes@.contains(params@[i].index) ==> {
            let place = asked_before(*answer, params@, i) as int;
            place < names@.len() && names@[place]@ == codec_text(codecs@[i])
        },
{
    lemma_accepted(*answer, params@, codecs@, params@.len() as int);
    assert(string_texts(names@).len() == names@.len());
    if answer.send_indexes@.contains(params@[i].index) {
        let place = asked_before(*answer, params@, i) as int;
        assert(string_texts(names@)[place] == names@[place]@);
    }
}

/// A session ends when it is stopped, when its capture or its channel is gone,
/// when the device ends it, which is told with its reason, and when its pipeline
/// fails, which is its error. Otherwise it goes on, and takes note of the raw
/// format the first time it is known.
pub proof fn law_sessions_end_for_a_reason(
    state: &mut SharedState,
    event: SessionEvent,
    ended: Option<Result<(), String>>,
)
    requires
        call_ensures(on_session_event, (state, event), ended),
    ensures
        ({
            let before = old(state)@;
            let after = final(state)@;
            match event {
                SessionEvent::Tick(None, format) => {
                    &&& ended is None
                    &&& after.last_event == before.last_event
                    &&& after.details.format == if before.details.format.len() == 0 && format
                        is Some {
                        format->Some_0@
                    } else {
                        before.details.format
                    }
                },
                SessionEvent::Tick(Some(error), _) => {
                    &&& ended matches Some(Err(message)) && message@ == error@
                    &&& after == before
                },
                SessionEvent::DeviceEnded(reason) => {
                    &&& ended matches Some(Ok(_))
                    &&& after.last_event == ("ended"@, reason@)
                    &&& after.details == before.details
                },
                _ => (ended matches Some(Ok(_))) && after == before,
            }
        }),
        final(state)@.status == old(state)@.status,
        final(state)@.details.codec == old(state)@.details.codec,
        final(state)@.details.transport == old(state)@.details.transport,
        final(state)@.details.encoder == old(state)@.details.encoder,
        final(state)@.last_activity == old(state)@.last_activity,
{
}

/// A session that starts is announced as casting to its device, by mirroring,
/// with its codec, its encoder and the codecs the receiver accepts; one without
/// video is Opus.
pub proof fn law_sessions_are_announced(
    state: &mut SharedState,
    device_id: &str,
    codec: Option<VideoCodec>,
    element: String,
    receiver_codecs: Vec<String>,
    now: Instant,
    event: Event,
)
    requires
        call_ensures(
            announce,
            (state, device_id, codec, element, receiver_codecs, now),
            event,
        ),
    ensures
        event is State,
        final(state)@.status == ("casting"@, device_id@),
        final(state)@.last_activity == now@,
        final(state)@.details.transport == "mirror"@,
        final(state)@.details.format.len() == 0,
        codec matches Some(named) ==> final(state)@.details.codec == codec_text(named)
            && final(state)@.details.encoder == element@
            && final(state)@.details.receiver_codecs == string_texts(receiver_codecs@),
        codec is None ==> final(state)@.details.codec == "opus"@
            && final(state)@.details.encoder.len() == 0
            && final(state)@.details.receiver_codecs.len() == 0,
        final(state)@.last_event == old(state)@.last_event,
{
}

/// The error that a pipeline reports is the first on its bus. What comes after it
/// stays on the bus; without one, nothing does.
pub proof fn law_the_first_error_is_reported(
    messages: &mut VecDeque<BusMessage>,
    error: Option<String>,
    at: int,
)
    requires
        call_ensures(pop_bus_error, (messages,), error),
        0 <= at <= old(messages)@.len(),
        forall|i: int| 0 <= i < at ==> (#[trigger] old(messages)@[i]) is Other,
        at < old(messages)@.len() ==> old(messages)@[at] is Error,
    ensures
        at == old(messages)@.len() ==> error is None && final(messages)@.len() == 0,
        at < old(messages)@.len() ==> {
            &&& error matches Some(text) && text@ == "mirroring pipeline error: "@
                + old(messages)@[at]->Error_0@
            &&& final(messages)@ == old(messages)@.skip(at + 1)
        },
{
    lemma_first_error(old(messages)@, at);
}

proof fn lemma_first_error(messages: Seq<BusMessage>, at: int)
    requires
        0 <= at <= messages.len(),
        forall|i: int| 0 <= i < at ==> (#[trigger] messages[i]) is Other,
        at < messages.len() ==> messages[at] is Error,
    ensures
        at == messages.len() ==> first_error(messages) is None && messages_taken(messages) == at,
        at < messages.len() ==> first_error(messages) == Some(
            "mirroring pipeline error: "@ + messages[at]->Error_0@,
        ) && messages_taken(messages) == at + 1,
    decreases at,
{
    if at > 0 {
        assert(messages[0] is Other);
        let rest = messages.skip(1);
        assert forall|i: int| 0 <= i < at - 1 implies (#[trigger] rest[i]) is Other by {
            assert(rest[i] == messages[i + 1]);
        }
        if at < messages.len() {
            assert(rest[at - 1] == messages[at]);
        }
        lemma_first_error(rest, at - 1);
    }
}

/// A timestamp is the presentation time in ticks of the timebase, rounded down,
/// around the end of the 32-bit numbers, or 0 without one. A chunk carries it, and with it what it
/// was made of; it is a key frame when it builds on none before it.
pub proof fn law_chunks_carry_their_time(
    kind: StreamKind,
    pts: Option<u64>,
    delta_unit: bool,
    timebase: u32,
    ntp: u64,
    data: Vec<u8>,
    chunk: EncodedChunk,
    ticks: int,
)
    requires
        call_ensures(encoded_chunk, (kind, pts, delta_unit, timebase, ntp, data), chunk),
        pts is Some ==> ticks * 1_000_000_000 <= pts->Some_0 * timebase < (ticks + 1)
            * 1_000_000_000,
        pts is None ==> ticks == 0,
    ensures
        (chunk.rtp_timestamp - ticks) % 0x1_0000_0000 == 0,
        chunk.kind == kind,
        chunk.is_key_frame <==> !delta_unit,
        chunk.ntp_timestamp == ntp,
        chunk.data == data,
{
    if let Some(at) = pts {
        let product = at * timebase;
        assert(ticks == product / 1_000_000_000);
    }
}

/// A session needs something to send: only one without a capture and without a
/// monitor is turned away, and one goes without audio only for want of a monitor.
pub proof fn law_sessions_need_something_to_send(
    has_capture: bool,
    has_monitor: bool,
    sources: Result<bool, Outcome>,
)
    requires
        call_ensures(check_sources, (has_capture, has_monitor), sources),
    ensures
        sources is Err <==> !has_capture && !has_monitor,
        sources matches Ok(video_only) ==> video_only == !has_monitor,
        sources matches Err(outcome) ==> outcome is Unavailable,
{
}

/// The audio stream is offered first, with the keys drawn for it, at the bitrate
/// asked for, or 128 kilobits a second where that is negative.
pub proof fn law_audio_is_offered_with_its_keys(
    keys: StreamKeys,
    offered: Resolved,
    params: AudioParams,
)
    requires
        call_ensures(audio_params, (&keys, &offered), params),
    ensures
        params.index == 0,
        params.ssrc == keys.ssrc,
        params.aes_key == keys.aes_key,
        params.aes_iv_mask == keys.aes_iv_mask,
        offered.audio_bitrate_bps >= 0 ==> params.bit_rate == offered.audio_bitrate_bps,
        offered.audio_bitrate_bps < 0 ==> params.bit_rate == 128_000,
{
}

/// What can be encoded is offered, ranked; only a cast with a capture can find
/// nothing to offer, and then because nothing can be encoded.
pub proof fn law_what_can_be_encoded_is_offered<F: Fn(&str, Probe) -> bool>(
    has_capture: bool,
    settings: StreamSettings,
    registry: &Registry,
    try_out: F,
    offer: Result<Vec<VideoCodec>, Outcome>,
)
    requires
        call_ensures(offer_codecs::<F>, (has_capture, &settings, registry, &try_out), offer),
    ensures
        !has_capture ==> (offer matches Ok(list) && list@.len() == 0),
        has_capture ==> exists|
            available: Seq<(VideoCodec, bool)>,
            ranked: Seq<(VideoCodec, bool)>,
            codecs: Seq<VideoCodec>,
        |
            {
                &&& #[trigger] availability(
                    try_out,
                    settings.encoding,
                    settings.video_codec,
                    registry,
                    4,
                    available,
                )
                &&& #[trigger] is_ranking(available, codecs, ranked)
                &&& offer is Ok <==> codecs.len() > 0
                &&& offer matches Ok(list) ==> list@ == codecs
            },
{
    if has_capture {
        let available = choose|available: Seq<(VideoCodec, bool)>|
            #[trigger] availability(
                try_out,
                settings.encoding,
                settings.video_codec,
                registry,
                4,
                available,
            ) && offered_from(settings, preferred(available), offer);
        lemma_preferred_is_a_ranking(available);
        let ranked = choose|ranked: Seq<(VideoCodec, bool)>|
            is_ranking(available, preferred(available), ranked);
        assert(is_ranking(available, preferred(available), ranked));
    }
}

/// Whether a variant offers a codec at the size, the frame rate and the bitrate
/// that go for all, under its own number and with a source id of its own
/// thousand. What is negative goes as nothing.
pub open spec fn offers(
    variant: VideoParams,
    i: int,
    codec: VideoCodec,
    offered: Resolved,
) -> bool {
    &&& variant.index == i + 1
    &&& 50_000 + 1_000 * i <= variant.ssrc < 51_000 + 1_000 * i
    &&& variant.codec_name@ == match codec {
        VideoCodec::Vp8 => "vp8"@,
        VideoCodec::Vp9 => "vp9"@,
        VideoCodec::Av1 => "av1"@,
        VideoCodec::H264 => "h264"@,
    }
    &&& variant.width == offered.size.0 || (variant.width == 0 && offered.size.0 < 0)
    &&& variant.height == offered.size.1 || (variant.height == 0 && offered.size.1 < 0)
    &&& variant.max_fps == offered.fps || (variant.max_fps == 0 && offered.fps < 0)
    &&& variant.max_bit_rate == 1_000 * offered.video_bitrate_kbps || (variant.max_bit_rate
        == 0xffff_ffff && 1_000 * offered.video_bitrate_kbps > 0xffff_ffff) || (
    variant.max_bit_rate == 0 && offered.video_bitrate_kbps < 0)
}

/// An offer holds what there is to send and nothing else: audio exactly when
/// there is a monitor, with the keys that are kept for it, and a variant for
/// each codec that can be encoded exactly when there is a capture.
pub proof fn law_offers_hold_what_there_is_to_send<F: Fn(&str, Probe) -> bool>(
    has_capture: bool,
    has_monitor: bool,
    settings: StreamSettings,
    offered: Resolved,
    registry: &Registry,
    try_out: F,
    prepared: Result<Offer, Outcome>,
    i: int,
)
    requires
        call_ensures(
            prepare_offer::<F>,
            (has_capture, has_monitor, &settings, &offered, registry, &try_out),
            prepared,
        ),
        0 <= i < 4,
    ensures
        prepared matches Ok(offer) ==> {
            &&& has_capture || has_monitor
            &&& offer.video_only == !has_monitor
            &&& (offer.audio is Some) == has_monitor
            &&& 1_000 <= offer.audio_keys.ssrc < 2_000
            &&& offer.audio matches Some(audio) ==> {
                &&& audio.index == 0
                &&& audio.ssrc == offer.audio_keys.ssrc
                &&& audio.aes_key == offer.audio_keys.aes_key
                &&& audio.aes_iv_mask == offer.audio_keys.aes_iv_mask
                &&& audio.bit_rate == offered.audio_bitrate_bps || (audio.bit_rate == 128_000
                    && offered.audio_bitrate_bps < 0)
            }
            &&& offer.video@.len() == offer.codecs@.len()
            &&& (offer.codecs@.len() > 0) == has_capture
            &&& i < offer.codecs@.len() ==> offers(
                offer.video@[i],
                i,
                offer.codecs@[i],
                offered,
            )
        },
        has_capture && prepared is Ok ==> exists|
            available: Seq<(VideoCodec, bool)>,
            ranked: Seq<(VideoCodec, bool)>,
        |
            {
                &&& #[trigger] availability(
                    try_out,
                    settings.encoding,
                    settings.video_codec,
                    registry,
                    4,
                    available,
                )
                &&& #[trigger] is_ranking(available, prepared->Ok_0.codecs@, ranked)
            },
        prepared is Err && (has_capture || has_monitor) ==> has_capture && exists|
            available: Seq<(VideoCodec, bool)>,
        |
            {
                &&& #[trigger] availability(
                    try_out,
                    settings.encoding,
                    settings.video_codec,
                    registry,
                    4,
                    available,
                )
                &&& available.len() == 0
            },
{
    match prepared {
        Ok(offer) => {
            let drawn = choose|drawn: u32|
                offer.audio_keys.ssrc == #[trigger] ssrc_from(AUDIO_SSRC_BASE, drawn);
            if i < offer.codecs@.len() {
                let variant = offer.video@[i];
                assert(is_variant(
                    variant,
                    i,
                    offer.codecs@[i],
                    offered.size,
                    offered.fps,
                    bits_of(offered.video_bitrate_kbps),
                ));
                assert(is_drawn_for(variant.ssrc, i));
                let own = choose|own: u32|
                    variant.ssrc == #[trigger] ssrc_from(video_ssrc_base(i), own);
            }
            if has_capture {
                let available = choose|available: Seq<(VideoCodec, bool)>|
                    #[trigger] availability(
                        try_out,
                        settings.encoding,
                        settings.video_codec,
                        registry,
                        4,
                        available,
                    ) && offer.codecs@ == preferred(available);
                lemma_preferred_is_a_ranking(available);
                let ranked = choose|ranked: Seq<(VideoCodec, bool)>|
                    is_ranking(available, preferred(available), ranked);
                assert(is_ranking(available, prepared->Ok_0.codecs@, ranked));
            }
        },
        Err(_) => {
            if has_capture || has_monitor {
                let available = choose|available: Seq<(VideoCodec, bool)>|
                    #[trigger] availability(
                        try_out,
                        settings.encoding,
                        settings.video_codec,
                        registry,
                        4,
                        available,
                    ) && preferred(available).len() == 0;
                lemma_preferred_is_a_ranking(available);
                let ranked = choose|ranked: Seq<(VideoCodec, bool)>|
                    is_ranking(available, preferred(available), ranked);
                ranked.to_multiset_ensures();
                available.to_multiset_ensures();
            }
        },
    }
}

/// The media of a session are those that its parts make of what was agreed: the
/// streams that were selected, the pipeline that feeds them, and the control of
/// their bitrate. Audio is streamed and captured exactly when it was selected.
pub proof fn law_media_are_planned_as_agreed<
    F: Fn((i32, i32), (i32, i32), (i32, i32)) -> Vec<(i32, i32)>,
>(
    selected: Selected,
    audio_keys: StreamKeys,
    capture: Option<(i32, u32)>,
    audio_monitor: Option<&str>,
    settings: StreamSettings,
    resolved: Resolved,
    snap: F,
    video_payload_type: u8,
    audio_payload_type: u8,
    plan: MediaPlan,
    keys: Option<StreamKeys>,
    monitor: Option<&str>,
    fragment: Option<&str>,
    streams: Vec<StreamConfig>,
    description: String,
    control: RateControl,
)
    requires
        call_ensures(
            plan_media::<F>,
            (
                &selected,
                &audio_keys,
                capture,
                audio_monitor,
                &settings,
                &resolved,
                &snap,
                video_payload_type,
                audio_payload_type,
            ),
            plan,
        ),
        selected.audio ==> keys == Some(audio_keys) && monitor == audio_monitor,
        !selected.audio ==> keys is None && monitor is None,
        fragment is Some <==> selected.encoder is Some,
        fragment matches Some(text) ==> text@ == selected.encoder->Some_0.0@,
        call_ensures(
            stream_configs,
            (selected.video, keys, video_payload_type, audio_payload_type),
            streams,
        ),
        call_ensures(
            build_pipeline,
            (capture, &settings, &resolved, fragment, monitor),
            description,
        ),
        call_ensures(rate_control::<F>, (&settings, &resolved, &snap), control),
    ensures
        plan.streams@ == streams@,
        plan.description@ == description@,
        plan.control.start_bps == control.start_bps,
        plan.control.min_bps == control.min_bps,
        plan.control.max_bps == control.max_bps,
        plan.control.set_bitrate == control.set_bitrate,
        plan.control.set_size == control.set_size,
        plan.control.start_size == control.start_size,
        call_ensures(
            snap,
            (resolved.size, (320i32, 180i32), resolved.size),
            plan.control.sizes,
        ),
{
}

/// A session that failed before media could flow leaves the way open for another
/// kind of cast; one whose pipeline does not start has failed. Either way the
/// error is told to the end.
pub proof fn law_only_a_pipeline_that_does_not_start_is_final(
    failure: Failure,
    outcome: Outcome,
    error: Seq<char>,
    told: Seq<char>,
)
    requires
        call_ensures(failed_outcome, (failure,), outcome),
        error == match failure {
            Failure::Negotiation(error) => error@,
            Failure::NegotiationTask(error) => error@,
            Failure::Selection(error) => error@,
            Failure::Media(error) => error@,
            Failure::Playing(error) => error@,
        },
        outcome matches Outcome::Unavailable(message) ==> told == message@,
        outcome matches Outcome::Finished(Err(message)) ==> told == message@,
    ensures
        outcome is Finished <==> failure is Playing,
        failure is Playing ==> (outcome matches Outcome::Finished(Err(_))),
        failure is Playing ==> told == "starting mirroring pipeline: "@ + error,
        failure is NegotiationTask ==> told == "negotiation task failed: "@ + error,
        !(failure is Playing) && !(failure is NegotiationTask) ==> told == error,
{
}

/// A buffer's timestamp is its presentation time in ticks, rounded down, around
/// the end of the 32-bit numbers.
pub proof fn law_timestamps_count_ticks(pts_ns: u64, timebase: u32, stamp: u32, ticks: int)
    requires
        call_ensures(rtp_timestamp, (pts_ns, timebase), stamp),
        ticks * 1_000_000_000 <= pts_ns * timebase < (ticks + 1) * 1_000_000_000,
    ensures
        (stamp - ticks) % 0x1_0000_0000 == 0,
{
    let product = pts_ns * timebase;
    assert(ticks == product / 1_000_000_000);
}

} // verus!
