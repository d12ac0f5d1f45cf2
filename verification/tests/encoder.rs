use gnome_shell_cast::encoder::{
    allowed, api_of, available_video_codecs, efficiency_order, factories, fragment_usable,
    gpu_class, hardware_encoder_available, hardware_encoding_gap, hardware_gap, is_hardware,
    is_render_node, launch_for, node_driver, os_release_ids, policy_failure_message, rank_codecs,
    render_node_drivers, va_package_for, video_encoder, Api, DrmNode, Element, EncoderPolicy,
    EncodingPolicy, FormatPolicy, Gpu, Probe, Registry, VideoCodec,
};

fn element(name: &str, formats: &[&str]) -> Element {
    Element {
        name: name.to_owned(),
        formats: formats.iter().map(|format| format.to_string()).collect(),
    }
}

fn registry(elements: Vec<Element>) -> Registry {
    Registry { elements, va_plugin: false }
}

/// A machine with these encoders, each taking the formats it takes in practice.
fn usual_registry() -> Registry {
    registry(vec![
        element("vah264enc", &["NV12"]),
        element("vp8enc", &["I420", "YV12"]),
        element("x264enc", &["Y444", "I420", "NV12"]),
    ])
}

#[test]
fn codec_names_match_the_cast_offer_strings() {
    assert_eq!(VideoCodec::Vp8.codec_name(), "vp8");
    assert_eq!(VideoCodec::Vp9.codec_name(), "vp9");
    assert_eq!(VideoCodec::Av1.codec_name(), "av1");
    assert_eq!(VideoCodec::H264.codec_name(), "h264");
}

#[test]
fn codec_names_read_back() {
    for codec in efficiency_order() {
        assert_eq!(VideoCodec::parse(codec.codec_name()), Some(codec));
    }
    assert_eq!(VideoCodec::parse("VP8"), None);
    assert_eq!(VideoCodec::parse(""), None);
}

#[test]
fn vpx_bitrate_is_bits_per_second() {
    let f = launch_for("vp9enc", 4_000_000, 30);
    assert!(f.starts_with("vp9enc name=venc"));
    assert!(f.contains("end-usage=cbr"));
    assert!(f.contains("target-bitrate=4000000"));
}

/// A receiver that lost the first key frame shows black until the next.
#[test]
fn every_fragment_keys_about_every_two_seconds() {
    for codec in efficiency_order() {
        for factory in factories(codec) {
            let f = launch_for(factory, 2_000_000, 40);
            if let Some(rest) = f.split("keyframe-max-dist=").nth(1) {
                assert_eq!(rest.split_whitespace().next(), Some("80"), "{factory}");
            }
        }
    }
    assert!(launch_for("x264enc", 2_000_000, 40).contains("key-int-max=80"));
    assert!(launch_for("svtav1enc", 2_000_000, 40).contains("intra-period-length=80"));
}

#[test]
fn av1_bitrate_is_kilobits_per_second() {
    assert!(launch_for("svtav1enc", 4_000_000, 30).contains("target-bitrate=4000"));
    assert!(launch_for("av1enc", 4_000_000, 30).contains("target-bitrate=4000"));
    assert!(launch_for("svtav1enc", 4_000_000, 30).contains("intra-period-length=60"));
}

#[test]
fn hardware_encoders_are_detected_and_kilobit_rated() {
    assert!(is_hardware("vah264enc"));
    assert!(is_hardware("nvav1enc"));
    assert!(!is_hardware("x264enc"));
    assert!(!is_hardware("svtav1enc"));
    assert!(!is_hardware("vp9enc"));
    // 4 Mbit/s -> 4000 kbit/s for VA/NVENC.
    assert!(launch_for("vah264enc", 4_000_000, 30).contains("bitrate=4000"));
    assert!(launch_for("nvh264enc", 4_000_000, 30).contains("rc-mode=cbr"));
}

#[test]
fn fragments_are_spelled_out() {
    assert_eq!(
        launch_for("vp8enc", 4_000_000, 30),
        "vp8enc name=venc deadline=1 cpu-used=8 end-usage=cbr target-bitrate=4000000 \
         keyframe-max-dist=60 lag-in-frames=0 error-resilient=default threads=4"
    );
    assert_eq!(
        launch_for("svtav1enc", 4_000_000, 30),
        "svtav1enc name=venc preset=12 target-bitrate=4000 intra-period-length=60"
    );
    assert_eq!(
        launch_for("av1enc", 4_000_000, 30),
        "av1enc name=venc usage-profile=realtime end-usage=cbr target-bitrate=4000 cpu-used=9 \
         lag-in-frames=0 keyframe-max-dist=60 threads=4"
    );
    assert_eq!(
        launch_for("x264enc", 4_000_000, 30),
        "x264enc name=venc tune=zerolatency speed-preset=veryfast bitrate=4000 key-int-max=60 \
         bframes=0"
    );
    assert_eq!(
        launch_for("vavp9lpenc", 999, 0),
        "vavp9lpenc name=venc bitrate=1 rate-control=cbr"
    );
    assert_eq!(launch_for("nvav1enc", 1_500, 1), "nvav1enc name=venc bitrate=1 rc-mode=cbr");
    assert_eq!(
        launch_for("v4l2vp8enc", 500, u32::MAX),
        "v4l2vp8enc name=venc \
         extra-controls=\"controls,video_bitrate=500,video_gop_size=4294967295\""
    );
    assert_eq!(launch_for("theoraenc", 4_000_000, 30), "theoraenc name=venc");
}

/// The format lookup has to agree with what the pipeline can actually link:
/// VA-API H.264 takes only NV12, the VPX/AV1 encoders only I420.
#[test]
fn accepted_formats_match_the_encoders() {
    let registry = usual_registry();
    assert!(registry.accepts_format("vah264enc", "NV12"));
    assert!(!registry.accepts_format("vah264enc", "I420"));
    assert!(registry.accepts_format("vp8enc", "I420"));
    assert!(!registry.accepts_format("vp8enc", "NV12"));
    assert!(registry.accepts_format("x264enc", "I420"));
    assert!(registry.accepts_format("x264enc", "NV12"));
    assert!(!registry.accepts_format("no-such-encoder", "I420"));
}

#[test]
fn policy_filters_the_candidate_list() {
    let registry = usual_registry();
    let auto = EncodingPolicy::default();
    let software = EncodingPolicy { encoder: EncoderPolicy::Software, ..auto };
    let hardware = EncodingPolicy { encoder: EncoderPolicy::Hardware, ..auto };

    assert!(allowed("x264enc", auto, &registry));
    assert!(allowed("x264enc", software, &registry));
    assert!(!allowed("x264enc", hardware, &registry));
    assert!(allowed("vah264enc", hardware, &registry));
    assert!(!allowed("vah264enc", software, &registry));

    // A forced format rules out encoders that cannot take it, which is what
    // keeps a forced value from producing a pipeline that will not link.
    let i420 = EncodingPolicy { format: FormatPolicy::I420, ..auto };
    assert!(!allowed("vah264enc", i420, &registry));
    assert!(allowed("x264enc", i420, &registry));
}

/// Whichever VA-API VP9 element a driver offers - full power or low power -
/// the hardware policy has to find it, or a VP9 cast silently runs in
/// software on hardware that can encode it.
#[test]
fn a_va_api_vp9_encoder_is_picked_when_one_is_installed() {
    let hardware = EncodingPolicy {
        encoder: EncoderPolicy::Hardware,
        format: FormatPolicy::Auto,
    };
    for offered in [vec![], vec!["vavp9enc"], vec!["vavp9lpenc"], vec!["vavp9enc", "vavp9lpenc"]] {
        let installed =
            registry(offered.iter().map(|name| element(name, &["NV12"])).collect());
        let usable = |fragment: &str, probe: Probe| {
            assert_eq!(probe, Probe::Opens);
            offered.iter().any(|name| fragment.starts_with(&format!("{name} ")))
        };
        let picked = video_encoder(VideoCodec::Vp9, 4_000_000, 30, hardware, &installed, &usable);
        assert_eq!(!offered.is_empty(), picked.is_some());
        if let Some((fragment, is_hw)) = picked {
            assert!(is_hw);
            assert!(fragment.starts_with("vavp9"), "{fragment}");
        }
    }
}

/// A machine with two hardware paths needs each one pinnable, and the V4L2
/// elements have to survive the same filters as VA-API and NVENC.
#[test]
fn each_hardware_api_can_be_pinned() {
    let registry = usual_registry();
    let pin = |encoder| EncodingPolicy { encoder, format: FormatPolicy::Auto };
    let va = pin(EncoderPolicy::VaApi);
    let nvenc = pin(EncoderPolicy::Nvenc);
    let v4l2 = pin(EncoderPolicy::V4l2);

    assert!(allowed("vah264enc", va, &registry));
    assert!(!allowed("nvh264enc", va, &registry));
    assert!(!allowed("v4l2h264enc", va, &registry));
    assert!(allowed("nvh264enc", nvenc, &registry));
    assert!(!allowed("vah264lpenc", nvenc, &registry));
    assert!(allowed("v4l2h264enc", v4l2, &registry));
    assert!(!allowed("x264enc", v4l2, &registry));
    // Every API choice is a hardware choice, so software never qualifies.
    for policy in [va, nvenc, v4l2] {
        assert!(!allowed("x264enc", policy, &registry));
        assert!(!allowed("vp9enc", policy, &registry));
    }
    // "v4l2" must not be read as the "va" or "nv" prefix.
    assert_eq!(api_of("v4l2vp8enc"), Some(Api::V4l2));
    assert_eq!(api_of("vavp9lpenc"), Some(Api::Va));
    assert_eq!(api_of("nvav1enc"), Some(Api::Nvenc));
    assert_eq!(api_of("vp8enc"), None);
}

/// V4L2 encoders take no bitrate property, so the controls carry it - in
/// bit/s, unlike the kbit/s properties everywhere else.
#[test]
fn v4l2_settings_travel_in_extra_controls() {
    let f = launch_for("v4l2h264enc", 4_000_000, 30);
    assert!(f.starts_with("v4l2h264enc name=venc"));
    assert!(f.contains("video_bitrate=4000000"));
    assert!(f.contains("video_gop_size=60"));
    assert!(!f.contains("bitrate=4000 "));
}

/// A registered element that cannot open its device must not be picked: the
/// mirroring path has no way back to software once a session starts.
#[test]
fn an_encoder_that_cannot_open_its_device_is_not_usable() {
    let parses_only = |fragment: &str, probe: Probe| {
        !fragment.starts_with("no-such-encoder") && probe == Probe::Parses
    };
    assert!(!fragment_usable("vah264enc", "no-such-encoder name=venc", &parses_only));
    assert!(!fragment_usable("x264enc", "no-such-encoder name=venc", &parses_only));
    // Software still only needs to parse, so this holds with no GPU at all.
    assert!(fragment_usable("x264enc", &launch_for("x264enc", 4_000_000, 30), &parses_only));
    // For a VA-API encoder, opening it is what proves it.
    let vah264 = launch_for("vah264enc", 4_000_000, 30);
    assert!(!fragment_usable("vah264enc", &vah264, &parses_only));
    assert!(fragment_usable("vah264enc", &vah264, &|_: &str, probe: Probe| probe == Probe::Opens));
}

#[test]
fn unknown_option_values_fall_back_to_auto() {
    assert_eq!(EncoderPolicy::parse("software"), EncoderPolicy::Software);
    assert_eq!(EncoderPolicy::parse("nonsense"), EncoderPolicy::Auto);
    assert_eq!(EncoderPolicy::parse(""), EncoderPolicy::Auto);
    assert_eq!(FormatPolicy::parse("nv12"), FormatPolicy::Nv12);
    assert_eq!(FormatPolicy::parse("yuv"), FormatPolicy::Auto);
    assert_eq!(FormatPolicy::Auto.caps_format(), "{NV12,I420}");
    assert_eq!(FormatPolicy::I420.caps_format(), "I420");
}

#[test]
fn every_policy_has_its_option_value() {
    assert_eq!(EncoderPolicy::parse("hardware"), EncoderPolicy::Hardware);
    assert_eq!(EncoderPolicy::parse("vaapi"), EncoderPolicy::VaApi);
    assert_eq!(EncoderPolicy::parse("nvenc"), EncoderPolicy::Nvenc);
    assert_eq!(EncoderPolicy::parse("v4l2"), EncoderPolicy::V4l2);
    assert_eq!(FormatPolicy::parse("i420"), FormatPolicy::I420);
    assert_eq!(FormatPolicy::Nv12.caps_format(), "NV12");
    assert_eq!(EncoderPolicy::default(), EncoderPolicy::Auto);
    assert_eq!(FormatPolicy::default(), FormatPolicy::Auto);
}

#[test]
fn os_release_ids_take_id_before_id_like() {
    let text =
        "NAME=\"openSUSE Tumbleweed\"\nID=\"opensuse-tumbleweed\"\nID_LIKE=\"suse opensuse\"\n";
    assert_eq!(
        os_release_ids(text),
        ["opensuse-tumbleweed", "suse", "opensuse"]
    );
    assert!(os_release_ids("").is_empty());
}

#[test]
fn os_release_lines_are_read_leniently() {
    assert_eq!(os_release_ids("ID_LIKE=debian\r\n ID = ubuntu \r\n"), ["ubuntu", "debian"]);
    // The first line of a name counts, and a line without `=` does not.
    assert_eq!(os_release_ids("ID\nID=arch\nID=debian"), ["arch"]);
    assert_eq!(os_release_ids("ID=a=b"), ["a=b"]);
    assert!(os_release_ids("ID=\"\"\nID_LIKE=\"  \"").is_empty());
}

/// Every DRM driver a user might boot this on, grouped by the encoder API it
/// actually leads to - the table decides whose advice is right, so a wrong
/// entry sends real people after the wrong package.
#[test]
fn drm_drivers_map_to_the_encoder_api_they_offer() {
    for driver in ["i915", "xe", "amdgpu", "radeon"] {
        assert_eq!(gpu_class(driver), Gpu::VaApi, "{driver}");
    }
    for driver in ["nvidia", "nvidia-drm", "nouveau"] {
        assert_eq!(gpu_class(driver), Gpu::Nvenc, "{driver}");
    }
    // SoCs encode through V4L2, VMs and server display chips not at all.
    for driver in [
        "v3d",
        "vc4",
        "panfrost",
        "panthor",
        "msm",
        "rockchip",
        "sun4i",
        "mediatek",
        "meson",
        "virtio_gpu",
        "vmwgfx",
        "qxl",
        "vkms",
        "vgem",
        "simpledrm",
        "ast",
        "mgag200",
        "asahi",
        "",
    ] {
        assert_eq!(gpu_class(driver), Gpu::Neither, "{driver}");
    }
}

/// What preferences ends up saying, for each shape of machine this runs on.
#[test]
fn the_hardware_gap_names_the_missing_piece() {
    let intel = [Gpu::VaApi];
    let nvidia_only = [Gpu::Nvenc];
    // A hybrid laptop: Intel plus NVIDIA, in either sysfs order.
    let hybrid = [Gpu::Nvenc, Gpu::VaApi];
    let pi = [Gpu::Neither];

    // Working hardware encoding says nothing, whatever the machine is.
    for gpus in [&intel[..], &nvidia_only[..], &hybrid[..], &pi[..], &[]] {
        assert_eq!(hardware_gap(true, gpus, true), "");
        assert_eq!(hardware_gap(true, gpus, false), "");
    }

    assert_eq!(hardware_gap(false, &intel, false), "plugin");
    assert_eq!(hardware_gap(false, &intel, true), "driver");
    // VA-API is the reachable path on a hybrid, so it wins over NVENC.
    assert_eq!(hardware_gap(false, &hybrid, false), "plugin");
    assert_eq!(hardware_gap(false, &hybrid, true), "driver");
    // Only NVIDIA silicon: a VA-API package would not help.
    assert_eq!(hardware_gap(false, &nvidia_only, false), "nvidia");
    assert_eq!(hardware_gap(false, &nvidia_only, true), "nvidia");
    // A Raspberry Pi, a VM, a headless box: nothing to suggest.
    assert_eq!(hardware_gap(false, &pi, true), "");
    assert_eq!(hardware_gap(false, &[], true), "");
}

fn node(name: &str, uevent: &str, link: Option<&str>) -> DrmNode {
    DrmNode {
        name: name.to_owned(),
        uevent: uevent.to_owned(),
        driver_link: link.map(|link| link.to_owned()),
    }
}

/// Whatever the machine has, the sysfs entries have to be classified without
/// panicking.
#[test]
fn this_machine_classifies_its_own_render_nodes() {
    let nodes = vec![
        node("renderD128", "DRIVER=i915\nPCI_CLASS=30000\n", None),
        node("card0", "DRIVER=i915\n", None),
        node("renderD129", "PCI_CLASS=30200\n", Some("nvidia")),
        node("renderD130", "", None),
    ];
    let drivers = render_node_drivers(&nodes);
    assert_eq!(drivers, ["i915", "nvidia"]);
    for driver in drivers {
        assert!(!driver.is_empty());
        let _ = gpu_class(&driver);
    }
}

#[test]
fn a_node_names_its_driver_in_its_uevent_or_by_its_link() {
    let linked = Some("radeon".to_owned());
    assert_eq!(node_driver("A=1\nDRIVER= amdgpu \n", &linked), Some("amdgpu".to_owned()));
    // Only the first such line counts, even when it is empty.
    assert_eq!(node_driver("DRIVER=\nDRIVER=xe", &linked), linked);
    assert_eq!(node_driver("XDRIVER=xe", &linked), linked);
    assert_eq!(node_driver("", &None), None);
    assert!(is_render_node("renderD128"));
    assert!(!is_render_node("card0-renderD"));
}

#[test]
fn va_package_follows_the_distribution() {
    assert_eq!(va_package_for(&["arch"]), "gst-plugin-va");
    assert_eq!(
        va_package_for(&["ubuntu", "debian"]),
        "gstreamer1.0-plugins-bad"
    );
    // Derivatives name themselves first and their base in ID_LIKE.
    assert_eq!(
        va_package_for(&["nobara", "fedora"]),
        "gstreamer1-plugins-bad-free"
    );
    assert_eq!(
        va_package_for(&["opensuse-leap", "suse"]),
        "gstreamer-plugins-bad"
    );
    assert_eq!(va_package_for(&["nixos"]), "");
    assert_eq!(va_package_for(&[]), "");
}

/// VA-API splits several codecs into a full-power and a low-power element,
/// and on Intel the low-power one is often the only one that exists.
#[test]
fn every_va_encoder_is_listed_with_its_low_power_variant() {
    for codec in efficiency_order() {
        let list = factories(codec);
        for factory in list
            .iter()
            .filter(|f| f.starts_with("va") && !f.ends_with("lpenc"))
        {
            let lp = format!("{}lpenc", factory.trim_end_matches("enc"));
            assert!(list.contains(&lp.as_str()), "{codec:?} is missing {lp}");
        }
    }
}

#[test]
fn every_fragment_names_the_encoder_venc() {
    for codec in efficiency_order() {
        for factory in factories(codec) {
            assert!(launch_for(factory, 2_000_000, 24).contains("name=venc"));
        }
    }
}

#[test]
fn hardware_comes_before_software_for_every_codec() {
    for codec in efficiency_order() {
        let tiers: Vec<bool> = factories(codec).iter().map(|f| is_hardware(f)).collect();
        let mut sorted = tiers.clone();
        sorted.sort_by_key(|hardware| !hardware);
        assert_eq!(tiers, sorted);
        assert_eq!(tiers.last(), Some(&false));
    }
}

#[test]
fn an_installed_hardware_encoder_is_noticed() {
    assert!(!hardware_encoder_available(&registry(vec![])));
    assert!(!hardware_encoder_available(&registry(vec![element("x264enc", &[])])));
    assert!(hardware_encoder_available(&registry(vec![
        element("x264enc", &[]),
        element("v4l2vp8enc", &[]),
    ])));
    assert!(!hardware_encoder_available(&registry(vec![element("vampegenc", &[])])));
}

#[test]
fn the_first_usable_candidate_is_taken() {
    let auto = EncodingPolicy::default();
    let none = registry(vec![]);
    // The VA-API encoders do not open; NVENC is the first that does.
    let usable = |fragment: &str, _: Probe| !fragment.starts_with("va");
    assert_eq!(
        video_encoder(VideoCodec::H264, 4_000_000, 30, auto, &none, &usable),
        Some(("nvh264enc name=venc bitrate=4000 rc-mode=cbr".to_owned(), true))
    );
    let software_only = |_: &str, probe: Probe| probe == Probe::Parses;
    let picked = video_encoder(VideoCodec::Av1, 4_000_000, 30, auto, &none, &software_only);
    assert!(matches!(picked, Some((f, false)) if f.starts_with("svtav1enc ")));
    assert_eq!(
        video_encoder(VideoCodec::Vp8, 4_000_000, 30, auto, &none, &|_: &str, _: Probe| false),
        None
    );
    // A forced format needs an installed encoder that takes it.
    let i420 = EncodingPolicy { format: FormatPolicy::I420, ..auto };
    assert_eq!(
        video_encoder(VideoCodec::Vp8, 4_000_000, 30, i420, &none, &|_: &str, _: Probe| true),
        None
    );
    let picked = video_encoder(
        VideoCodec::Vp8,
        4_000_000,
        30,
        i420,
        &usual_registry(),
        &|_: &str, _: Probe| true,
    );
    assert!(matches!(picked, Some((f, false)) if f.starts_with("vp8enc ")));
}

#[test]
fn codecs_are_offered_hardware_first_then_by_efficiency() {
    let auto = EncodingPolicy::default();
    let none = registry(vec![]);
    // Only H.264 opens in hardware; everything parses in software.
    let usable = |fragment: &str, probe: Probe| {
        probe == Probe::Parses || fragment.starts_with("vah264enc ")
    };
    assert_eq!(
        available_video_codecs(auto, None, &none, &usable),
        [VideoCodec::H264, VideoCodec::Av1, VideoCodec::Vp9, VideoCodec::Vp8]
    );
    assert_eq!(
        available_video_codecs(auto, Some(VideoCodec::Vp9), &none, &usable),
        [VideoCodec::Vp9]
    );
    let hardware = EncodingPolicy { encoder: EncoderPolicy::Hardware, ..auto };
    assert_eq!(available_video_codecs(hardware, None, &none, &usable), [VideoCodec::H264]);
    assert!(available_video_codecs(hardware, Some(VideoCodec::Vp8), &none, &usable).is_empty());
}

#[test]
fn ranking_keeps_every_codec() {
    let available = vec![
        (VideoCodec::Vp8, true),
        (VideoCodec::Av1, false),
        (VideoCodec::H264, true),
        (VideoCodec::Vp9, false),
    ];
    assert_eq!(
        rank_codecs(&available),
        [VideoCodec::H264, VideoCodec::Vp8, VideoCodec::Av1, VideoCodec::Vp9]
    );
    assert!(rank_codecs(&vec![]).is_empty());
}

#[test]
fn only_a_missing_plugin_has_the_distribution_read() {
    let os_release = || "ID=nobara\nID_LIKE=\"fedora\"\n".to_owned();
    let intel = vec![node("renderD128", "DRIVER=i915\n", None)];
    let nvidia = vec![node("renderD128", "", Some("nouveau"))];
    assert_eq!(
        hardware_encoding_gap(&intel, &registry(vec![]), &os_release),
        ("plugin", "gstreamer1-plugins-bad-free")
    );
    let unread = || -> String { panic!("the distribution does not matter here") };
    let driver = Registry { elements: vec![], va_plugin: true };
    assert_eq!(hardware_encoding_gap(&intel, &driver, &unread), ("driver", ""));
    assert_eq!(hardware_encoding_gap(&nvidia, &registry(vec![]), &unread), ("nvidia", ""));
    assert_eq!(
        hardware_encoding_gap(&intel, &registry(vec![element("vah264enc", &[])]), &unread),
        ("", "")
    );
    assert_eq!(hardware_encoding_gap(&vec![], &registry(vec![]), &unread), ("", ""));
}

#[test]
fn every_policy_names_the_setting_to_change() {
    let message = |encoder, format| policy_failure_message(EncodingPolicy { encoder, format });
    assert_eq!(
        message(EncoderPolicy::Auto, FormatPolicy::Auto),
        "No video encoder is installed. Install the GStreamer encoder plugins for your system."
    );
    assert_eq!(
        message(EncoderPolicy::Auto, FormatPolicy::Nv12),
        "No video encoder accepts the selected pixel format. Set the pixel format preference \
         back to automatic."
    );
    for (policy, name) in [
        (EncoderPolicy::Hardware, "hardware video"),
        (EncoderPolicy::Software, "software video"),
        (EncoderPolicy::VaApi, "VA-API"),
        (EncoderPolicy::Nvenc, "NVENC"),
        (EncoderPolicy::V4l2, "V4L2"),
    ] {
        assert_eq!(
            message(policy, FormatPolicy::I420),
            format!(
                "No {name} encoder can be used for this device. Set the video encoder preference \
                 back to automatic."
            )
        );
    }
}
