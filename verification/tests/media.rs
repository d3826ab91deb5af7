use prism::media::{
    audio_ok, container_ok, decimal, judge, names_nvenc, number, probe, probe_args, transcode_args, transcoding_suspended, unknown, video_ok, MediaInfo,
    Playability, Report, Stream,
};

#[test]
fn browser_friendly_codecs_are_recognised() {
    assert!(video_ok("h264") && video_ok("vp9") && video_ok("av1"));
    assert!(!video_ok("hevc") && !video_ok("mpeg2video") && !video_ok("wmv3"));
    assert!(audio_ok("aac") && audio_ok("opus"));
    assert!(!audio_ok("ac3") && !audio_ok("dts"));
}

#[test]
fn matroska_alone_is_not_playable_but_webm_is() {
    // ffprobe reports "matroska,webm" for both; only webm is safe, so the
    // shared name must not be taken as permission.
    assert!(!container_ok("matroska"));
    assert!(!container_ok("matroska,webm"));
    assert!(container_ok("mov,mp4,m4a,3gp,3g2,mj2"));
}

#[test]
fn transcode_args_seek_before_decoding() {
    // -ss after -i decodes from the start, which on a two-hour file is the
    // difference between instant and unusable.
    let info = MediaInfo {
        playability: Playability::Transcode {
            video: "h264",
            audio: "aac",
            reencode_video: true,
            reencode_audio: true,
        },
        ..unknown()
    };
    let args = transcode_args("/x.mkv", &info, 90_000, true);
    let ss = args.iter().position(|a| a == "-ss").expect("seeks");
    let i = args.iter().position(|a| a == "-i").expect("has input");
    assert!(ss < i, "-ss must precede -i: {args:?}");
}

#[test]
fn a_remux_never_re_encodes() {
    // The whole point: an MKV of H.264 and AAC costs a container change,
    // not a GPU.
    let info = MediaInfo {
        playability: Playability::Remux {
            video: "copy",
            audio: "copy",
        },
        ..unknown()
    };
    let args = transcode_args("/x.mkv", &info, 0, true);
    let joined = args.join(" ");
    assert!(joined.contains("-c:v copy"), "{joined}");
    assert!(joined.contains("-c:a copy"), "{joined}");
    assert!(!joined.contains("nvenc"), "{joined}");
}

#[test]
fn only_the_stream_that_needs_it_is_re_encoded() {
    // H.264 video with AC3 audio: keep the video, convert the audio.
    let info = MediaInfo {
        playability: Playability::Transcode {
            video: "copy",
            audio: "aac",
            reencode_video: false,
            reencode_audio: true,
        },
        ..unknown()
    };
    let joined = transcode_args("/x.mkv", &info, 0, true).join(" ");
    assert!(joined.contains("-c:v copy"), "{joined}");
    assert!(joined.contains("-c:a aac"), "{joined}");
}

#[test]
fn software_encoding_is_used_when_nvenc_is_absent() {
    let info = MediaInfo {
        playability: Playability::Transcode {
            video: "h264",
            audio: "copy",
            reencode_video: true,
            reencode_audio: false,
        },
        ..unknown()
    };
    let joined = transcode_args("/x.mkv", &info, 0, false).join(" ");
    assert!(joined.contains("libx264"), "{joined}");
}

#[test]
fn output_is_fragmented_so_playback_can_start_early() {
    // A plain MP4 puts its index at the end, so the whole file would have
    // to be transcoded before anything played.
    let info = MediaInfo {
        playability: Playability::Remux {
            video: "copy",
            audio: "copy",
        },
        ..unknown()
    };
    let joined = transcode_args("/x.mkv", &info, 0, true).join(" ");
    assert!(joined.contains("frag_keyframe"), "{joined}");
    assert!(joined.contains("empty_moov"), "{joined}");
}

#[test]
fn a_missing_file_probes_as_unknown() {
    // What the probe prints of a file that is not there.
    assert_eq!(probe(b"").playability, Playability::Unknown);
    assert_eq!(probe(b"{}").playability, Playability::Unknown);
}

#[test]
fn a_non_media_file_probes_as_unknown() {
    assert_eq!(probe(b"not media").playability, Playability::Unknown);
    assert_eq!(
        probe(br#"{"streams":[],"format":{"format_name":"tty"}}"#).playability,
        Playability::Unknown
    );
}

#[test]
fn a_probe_is_read_and_judged() {
    let out = br#"{"streams":[
        {"codec_type":"video","codec_name":"h264","width":1920,"height":1080},
        {"codec_type":"audio","codec_name":"ac3"}],
        "format":{"format_name":"matroska,webm","duration":"90.5"}}"#;
    let info = probe(out);
    assert_eq!(info.width, Some(1920));
    assert_eq!(info.height, Some(1080));
    assert_eq!(info.video_codec.as_deref(), Some("h264"));
    assert_eq!(info.audio_codec.as_deref(), Some("ac3"));
    assert_eq!(info.container.as_deref(), Some("matroska,webm"));
    assert_eq!(info.duration_secs.as_deref(), Some("90.5"));
    assert_eq!(
        info.playability,
        Playability::Transcode { video: "copy", audio: "aac", reencode_video: false, reencode_audio: true }
    );
}

fn stream(kind: &str, codec: &str) -> Stream {
    Stream { codec_type: Some(kind.to_string()), codec_name: Some(codec.to_string()), width: None, height: None }
}

#[test]
fn what_a_browser_plays_is_left_alone_and_a_container_is_changed_cheaply() {
    let mut r = Report {
        streams: vec![stream("video", "h264"), stream("audio", "aac")],
        format_name: Some("mov,mp4,m4a,3gp,3g2,mj2".to_string()),
        duration: None,
    };
    assert_eq!(judge(&r).playability, Playability::Direct);
    r.format_name = Some("matroska".to_string());
    assert_eq!(judge(&r).playability, Playability::Remux { video: "copy", audio: "copy" });
    r.streams[0] = stream("video", "hevc");
    assert!(matches!(judge(&r).playability, Playability::Transcode { reencode_video: true, reencode_audio: false, .. }));
}

#[test]
fn the_probe_is_asked_for_what_is_read() {
    let args = probe_args("/x.mkv");
    assert_eq!(args.last().map(|s| s.as_str()), Some("/x.mkv"));
    assert!(args.contains(&"-show_streams".to_string()));
    assert!(names_nvenc(" V....D h264_nvenc  NVIDIA NVENC H.264 encoder"));
    assert!(!names_nvenc(" V....D libx264"));
}

#[test]
fn a_seek_is_written_in_seconds() {
    let args = transcode_args("/x.mkv", &unknown(), 90_500, false);
    let ss = args.iter().position(|a| a == "-ss").expect("seeks");
    assert_eq!(args[ss + 1], "90.500");
    assert!(!transcode_args("/x.mkv", &unknown(), 0, false).contains(&"-ss".to_string()));
}

#[test]
fn a_duration_that_is_no_number_is_none() {
    let mut r = Report {
        streams: vec![stream("video", "h264")],
        format_name: Some("mp4".to_string()),
        duration: Some("N/A".to_string()),
    };
    assert_eq!(judge(&r).duration_secs, None);
    r.duration = Some("12".to_string());
    assert_eq!(judge(&r).duration_secs.as_deref(), Some("12"));
    for number in ["0", "12.5", "+1", "-1.", ".5", "1e3", "1.5E-2"] {
        assert!(decimal(number) && number.parse::<f64>().is_ok(), "{number}");
    }
    for other in ["", ".", "-", "1e", "e3", "1.2.3", " 1", "1 "] {
        assert!(!decimal(other) && other.parse::<f64>().is_err(), "{other}");
    }
}

#[test]
fn nothing_is_transcoded_under_pressure() {
    assert!(!transcoding_suspended("green") && !transcoding_suspended("amber"));
    assert!(transcoding_suspended("red") && transcoding_suspended("black"));
}

#[test]
fn a_duration_without_end_is_a_number_all_the_same() {
    for special in ["inf", "-inf", "+Infinity", "NaN", "-nan", "INF"] {
        assert!(number(special) && !decimal(special), "{special}");
        assert!(special.parse::<f64>().is_ok(), "{special}");
    }
    for other in ["N/A", "infinit", "in", "--inf", "inf ", "nan0", "i"] {
        assert!(!number(other), "{other}");
        assert!(other.parse::<f64>().is_err(), "{other}");
    }
    assert!(number("12.5"));
    let r = Report {
        streams: vec![Stream {
            codec_type: Some("video".to_string()),
            codec_name: Some("h264".to_string()),
            width: None,
            height: None,
        }],
        format_name: Some("mov,mp4".to_string()),
        duration: Some("inf".to_string()),
    };
    assert_eq!(judge(&r).duration_secs.as_deref(), Some("inf"));
}
