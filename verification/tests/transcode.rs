use phone_sync_server::transcode::{
    is_worth_producing, rendition_options, renditions, video_info_from_probe, VideoInfo, VideoProbeStream,
};

#[test]
fn the_small_rendition_is_always_produced() {
    let small = renditions()[1];
    assert!(is_worth_producing(&small, &VideoInfo { height: 480, ..Default::default() }));
    assert!(is_worth_producing(&small, &VideoInfo { height: 2160, ..Default::default() }));
}

#[test]
fn a_source_no_taller_than_the_small_rendition_skips_the_large_one() {
    let large = renditions()[0];
    assert!(!is_worth_producing(&large, &VideoInfo { height: 540, ..Default::default() }));
    assert!(!is_worth_producing(&large, &VideoInfo { height: 480, ..Default::default() }));
    assert!(is_worth_producing(&large, &VideoInfo { height: 1080, ..Default::default() }));
}

#[test]
fn an_unknown_source_height_still_gets_both_renditions() {
    let large = renditions()[0];
    assert!(is_worth_producing(&large, &VideoInfo { height: 0, ..Default::default() }));
}

#[test]
fn the_renditions_are_1080p_then_540p() {
    let r = renditions();
    assert_eq!(r.len(), 2);
    assert_eq!(r[0].file_name, "v1080.mp4");
    assert_eq!((r[0].max_width, r[0].max_height, r[0].crf, r[0].max_rate_kbps), (1920, 1080, 21, 6000));
    assert_eq!(r[1].file_name, "v540.mp4");
    assert_eq!((r[1].max_width, r[1].max_height, r[1].crf, r[1].max_rate_kbps), (960, 540, 24, 1800));
}

#[test]
fn probe_reads_duration_audio_presence_and_height() {
    let duration: f64 = "12.480000".parse().unwrap();
    let streams = vec![
        VideoProbeStream { codec_type: "video".into(), height: 1080 },
        VideoProbeStream { codec_type: "audio".into(), height: 0 },
    ];
    let info = video_info_from_probe(duration.to_bits(), &streams);
    assert_eq!(f64::from_bits(info.duration_bits), 12.48);
    assert!(info.has_audio);
    assert_eq!(info.height, 1080);
    let taller = video_info_from_probe(
        0,
        &vec![
            VideoProbeStream { codec_type: "video".into(), height: 720 },
            VideoProbeStream { codec_type: "video".into(), height: 2160 },
        ],
    );
    assert_eq!(taller.height, 2160);
    let silent = video_info_from_probe(0, &vec![VideoProbeStream { codec_type: "data".into(), height: 99 }]);
    assert!(!silent.has_audio);
    assert_eq!(silent.height, 0);
}

#[test]
fn the_encoder_maps_audio_only_when_there_is_some() {
    let r = renditions()[0];
    let with_audio = rendition_options(&r, &VideoInfo { has_audio: true, ..Default::default() });
    let expected: Vec<&str> = vec![
        "-map", "0:v:0", "-map", "0:a:0", "-c:v", "libx264", "-profile:v", "high", "-level", "4.1", "-preset",
        "veryfast", "-crf", "21", "-maxrate", "6000k", "-bufsize", "12000k", "-pix_fmt", "yuv420p", "-vf",
        "scale=w=1920:h=1080:force_original_aspect_ratio=decrease:force_divisible_by=2", "-g", "60",
        "-keyint_min", "60", "-sc_threshold", "0", "-c:a", "aac", "-b:a", "160k", "-ac", "2", "-movflags",
        "+faststart",
    ];
    assert_eq!(with_audio, expected);
    let silent = rendition_options(&renditions()[1], &VideoInfo::default());
    assert!(!silent.iter().any(|a| a == "0:a:0" || a == "aac"));
    assert!(silent.contains(&"3600k".to_string()));
}
