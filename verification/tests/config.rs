use std::path::PathBuf;

use phone_sync_server::config::{
    default_thumbnail_workers, explicit_jwt_secret, i64_setting, persisted_jwt_secret, random_hex_secret,
    text_setting, u32_setting, usize_setting, Config, DEFAULT_MAX_UPLOAD_BYTES, DEFAULT_TOKEN_TTL_SECS,
};
use phone_sync_server::serve::{watch_step, ServeLimits, WatchStep};

#[test]
fn settings_fall_back_to_their_defaults() {
    assert_eq!(text_setting(None, "0.0.0.0:8080"), "0.0.0.0:8080");
    assert_eq!(text_setting(Some(""), "x"), "");
    assert_eq!(i64_setting(None, DEFAULT_TOKEN_TTL_SECS), 31_536_000);
    assert_eq!(i64_setting(Some("-60"), 5), -60);
    assert_eq!(i64_setting(Some("+60"), 5), 60);
    assert_eq!(i64_setting(Some("-9223372036854775808"), 5), i64::MIN);
    assert_eq!(i64_setting(Some("9223372036854775808"), 5), 5);
    assert_eq!(i64_setting(Some("-"), 5), 5);
    assert_eq!(i64_setting(Some("-+1"), 5), 5);
    assert_eq!(usize_setting(Some("10485760"), DEFAULT_MAX_UPLOAD_BYTES as usize), 10_485_760);
    assert_eq!(usize_setting(Some("lots"), 7), 7);
    assert_eq!(u32_setting(Some("2048"), 512), 2048);
    assert_eq!(u32_setting(Some("4294967296"), 512), 512);
    assert_eq!(u32_setting(Some(" 2048"), 512), 512);
}

#[test]
fn the_backfill_uses_half_the_cores_between_one_and_eight() {
    assert_eq!(default_thumbnail_workers(0), 1);
    assert_eq!(default_thumbnail_workers(1), 1);
    assert_eq!(default_thumbnail_workers(6), 3);
    assert_eq!(default_thumbnail_workers(64), 8);
}

#[test]
fn an_explicit_secret_wins_unless_blank() {
    assert_eq!(explicit_jwt_secret(Some(" s3cret ")).as_deref(), Some(" s3cret "));
    assert_eq!(explicit_jwt_secret(Some("   ")), None);
    assert_eq!(explicit_jwt_secret(None), None);
    assert_eq!(persisted_jwt_secret(Some("abc\n")).as_deref(), Some("abc"));
    assert_eq!(persisted_jwt_secret(Some("\n")), None);
    assert_eq!(persisted_jwt_secret(None), None);
}

#[test]
fn a_generated_secret_is_256_random_bits_in_hex() {
    let a = random_hex_secret();
    let b = random_hex_secret();
    assert_eq!(a.len(), 64);
    assert!(a.chars().all(|c| c.is_ascii_hexdigit() && !c.is_ascii_uppercase()));
    assert_ne!(a, b);
}

#[test]
fn the_media_tools_come_from_the_configuration() {
    let config = Config {
        bind_addr: "127.0.0.1:0".into(),
        data_dir: PathBuf::from("/tmp/data"),
        media_root: PathBuf::from("/tmp/data/pictures"),
        media_folder_suffix: "phone-sync".into(),
        username: "jason".into(),
        password_hash: String::new(),
        jwt_secret: "test-secret".into(),
        token_ttl_secs: 365 * 24 * 60 * 60,
        max_upload_bytes: 10 * 1024 * 1024,
        ffmpeg_path: "/opt/ffmpeg".into(),
        ffprobe_path: "/opt/ffprobe".into(),
        thumbnail_max_dim: 512,
        preview_max_dim: 2048,
        default_page_size: 120,
        max_page_size: 500,
        thumbnail_workers: 2,
    };
    let tools = config.media_tools();
    assert_eq!(tools.ffmpeg, "/opt/ffmpeg");
    assert_eq!(tools.ffprobe, "/opt/ffprobe");
}

#[test]
fn serve_limits_are_overridden_only_by_valid_values() {
    let d = ServeLimits::default();
    assert_eq!(d.send_buffer_bytes, 1024 * 1024);
    assert_eq!((d.keepalive_idle_secs, d.keepalive_interval_secs), (60, 10));
    assert_eq!((d.idle_timeout_secs, d.idle_check_interval_secs, d.shutdown_grace_secs), (300, 15, 5));
    let l = ServeLimits::from_env(Some("65536"), Some("nope"), None, Some("5"), None, None, Some("-1"));
    assert_eq!(l.send_buffer_bytes, 65536);
    assert_eq!(l.recv_buffer_bytes, 1024 * 1024);
    assert_eq!(l.keepalive_interval_secs, 5);
    assert_eq!(l.shutdown_grace_secs, 5);
    let same = ServeLimits::from_env(None, None, None, None, None, None, None);
    assert_eq!(same.idle_timeout_secs, 300);
}

#[test]
fn the_watchdog_drops_only_a_connection_that_stops_moving() {
    let limits = ServeLimits::default();
    assert_eq!(watch_step(10, 20, 285, &limits), WatchStep::Progress { last: 20, stalled_secs: 0 });
    assert_eq!(watch_step(20, 20, 0, &limits), WatchStep::Stalled { stalled_secs: 15 });
    assert_eq!(watch_step(20, 20, 270, &limits), WatchStep::Stalled { stalled_secs: 285 });
    assert_eq!(watch_step(20, 20, 285, &limits), WatchStep::Drop);
}
