use phone_sync_server::error::ApiError;
use phone_sync_server::models::{MediaRecord, StorageRoot};
use phone_sync_server::storage::{
    cached_jpeg_name, capture_date, check_assembled, local_date_at, ContentHasher, chunk_file_name, chunk_indices, content_hash, extension_for,
    is_browser_displayable, is_thumbnailable, is_valid_content_hash, make_record, month_folder, month_folder_for,
    name_candidates, parse_chunk_file_name, place_upload, Placement, safe_filename, served_content_type, timestamped_filename, Storage,
};

fn rec(asset: &str, sha: &str, created: &str) -> MediaRecord {
    make_record(asset, sha, "IMG_0001.jpg", "image/jpeg", "photo", created, "2026/x/IMG_0001.jpg".into(), StorageRoot::MediaRoot, 3)
}

#[test]
fn content_is_addressed_by_its_sha256() {
    assert_eq!(content_hash(b"abc"), "ba7816bf8f01cfea414140de5dae2223b00361a396177a9cb410ff61f20015ad");
    assert_eq!(content_hash(b""), "e3b0c44298fc1c149afbf4c8996fb92427ae41e4649b934ca495991b7852b855");
    assert!(is_valid_content_hash(&content_hash(b"hello")));
}

#[test]
fn only_a_plain_64_digit_hex_hash_is_valid() {
    assert!(is_valid_content_hash(&"aB".repeat(32)));
    assert!(!is_valid_content_hash(&"a".repeat(63)));
    assert!(!is_valid_content_hash(&"g".repeat(64)));
    assert!(!is_valid_content_hash("../../pwned"));
    assert!(!is_valid_content_hash("not-hex-but-64-characters-long-aaaaaaaaaaaaaaaaaaaaaaaaaaaaaaaa"));
}

#[test]
fn thumbnailable_formats_are_known_by_type_or_name() {
    assert!(is_thumbnailable("IMAGE/JPEG", "x"));
    assert!(is_thumbnailable("application/octet-stream", "SHOT.PNG"));
    assert!(is_thumbnailable("", "a.tif"));
    assert!(!is_thumbnailable("image/heic", "IMG_1.HEIC"));
    assert!(!is_thumbnailable("video/quicktime", "IMG_3.MOV"));
    assert_eq!(is_browser_displayable("image/png", "shot.png"), true);
    assert_eq!(is_browser_displayable("image/heic", "IMG_1.HEIC"), false);
}

#[test]
fn iphone_video_is_served_as_mp4() {
    let mut r = rec("mov-1", "abc", "2026-08-11T18:00:00Z");
    r.content_type = "Video/QuickTime".into();
    assert_eq!(served_content_type(&r), "video/mp4");
    r.content_type = "image/png".into();
    assert_eq!(served_content_type(&r), "image/png");
}

#[test]
fn plain_and_naive_capture_times_give_their_calendar_date() {
    assert_eq!(capture_date("2026-08-11T18:00:00"), Some((2026, 8, 11)));
    assert_eq!(capture_date("2026-08-11 18:00:00"), Some((2026, 8, 11)));
    assert_eq!(capture_date("  2026-01-05  "), Some((2026, 1, 5)));
    assert_eq!(capture_date("2026-01-05T99"), Some((2026, 1, 5)));
    assert_eq!(capture_date(""), None);
    assert_eq!(capture_date("undated"), None);
}

#[test]
fn an_rfc3339_time_is_filed_by_its_local_date() {
    // Midday UTC is the same calendar day in every time zone within twelve hours.
    let d = capture_date("2026-08-11T12:00:00Z").unwrap();
    assert_eq!((d.0, d.1), (2026, 8));
    assert!(d.2 == 11 || d.2 == 10 || d.2 == 12);
}

#[test]
fn media_is_filed_into_year_and_month_folders() {
    assert_eq!(month_folder_for((2026, 8, 11), "phone-sync"), "2026/202608-phone-sync");
    assert_eq!(month_folder_for((2025, 12, 25), "phone-sync"), "2025/202512-phone-sync");
    assert_eq!(month_folder("2026-01-05T20:00:00", "phone-sync"), "2026/202601-phone-sync");
    // 18:00 UTC stays in August under any offset of less than a day.
    assert_eq!(month_folder("2026-08-11T18:00:00Z", "phone-sync"), "2026/202608-phone-sync");
}

#[test]
fn the_local_date_follows_the_utc_offset() {
    // 2026-08-11T18:00:00Z
    assert_eq!(local_date_at(1786471200, 0), (2026, 8, 11));
    assert_eq!(local_date_at(1786471200, 6 * 3600), (2026, 8, 12));
    assert_eq!(local_date_at(1786471200, -18 * 3600), (2026, 8, 11));
    assert_eq!(local_date_at(1786471200, -18 * 3600 - 1), (2026, 8, 10));
    // 8pm on 31 August in UTC-7 is already 1 September in UTC.
    assert_eq!(local_date_at(1788231600, 0), (2026, 9, 1));
    assert_eq!(local_date_at(1788231600, -7 * 3600), (2026, 8, 31));
    assert_eq!(local_date_at(0, 0), (1970, 1, 1));
    assert_eq!(local_date_at(-1, 0), (1969, 12, 31));
    assert_eq!(local_date_at(951825600, 0), (2000, 2, 29));
    assert_eq!(local_date_at(253402300799, 0), (9999, 12, 31));
    assert_eq!(local_date_at(1 << 45, 0), (1116918, 5, 14));
    assert_eq!(local_date_at(-(1 << 45), 0), (-1112979, 8, 20));
}

#[test]
fn unparseable_capture_time_falls_back_to_today() {
    let folder = month_folder("undated", "phone-sync");
    assert!(folder.ends_with("-phone-sync"));
    let (year, rest) = folder.split_once('/').unwrap();
    assert_eq!(year.len(), 4);
    assert!(rest.starts_with(year));
    let month: u32 = rest[4..6].parse().unwrap();
    assert!((1..=12).contains(&month));
    assert!(year.parse::<i32>().unwrap() >= 2024);
}

#[test]
fn client_filenames_are_reduced_to_safe_names() {
    assert_eq!(safe_filename("IMG_0001.HEIC", "image/heic"), "IMG_0001.HEIC");
    assert_eq!(safe_filename("../../etc/passwd", "image/jpeg"), "passwd.jpg");
    assert_eq!(safe_filename("C:\\Users\\x\\a<b>.jpg", "image/jpeg"), "ab.jpg");
    assert_eq!(safe_filename("..", "video/quicktime"), "media.mov");
    assert_eq!(safe_filename("  .hidden. ", "application/x"), "hidden.bin");
    assert_eq!(safe_filename("", "image/png"), "media.png");
    assert_eq!(safe_filename("report", "video/mp4"), "report.mp4");
}

#[test]
fn the_extension_comes_from_the_name_then_the_type() {
    assert_eq!(extension_for("IMG.HEIC", "image/jpeg"), "heic");
    assert_eq!(extension_for("noext", "image/png"), "png");
    assert_eq!(extension_for(".profile", "nope"), "bin");
}

#[test]
fn colliding_names_are_disambiguated_by_the_hash() {
    let sha = "0123456789abcdef".repeat(4);
    let c = name_candidates("IMG_0001.jpg", &sha);
    assert_eq!(c, vec!["IMG_0001.jpg".to_string(), "IMG_0001-01234567.jpg".to_string(), format!("IMG_0001-{sha}.jpg")]);
    let c = name_candidates("README", &sha);
    assert_eq!(c[1], "README-01234567");
    let t = timestamped_filename("IMG_0001.jpg");
    assert!(t.starts_with("IMG_0001-"));
    assert!(t.ends_with(".jpg"));
    let digits = &t["IMG_0001-".len()..t.len() - 4];
    assert!(digits.chars().all(|c| c.is_ascii_digit()) && digits.len() > 10);
}

#[test]
fn chunk_names_round_trip() {
    assert_eq!(chunk_file_name(0), "0.part");
    assert_eq!(chunk_file_name(4294967295), "4294967295.part");
    assert_eq!(parse_chunk_file_name(&chunk_file_name(17)), Some(17));
    assert_eq!(parse_chunk_file_name("4294967296.part"), None);
    assert_eq!(parse_chunk_file_name("x.part"), None);
    assert_eq!(parse_chunk_file_name("3.tmp"), None);
}

#[test]
fn received_chunks_are_listed_ascending() {
    let names: Vec<String> = vec!["2.part", "junk", "0.part", "10.part", ".part", "1.part.tmp"]
        .into_iter()
        .map(String::from)
        .collect();
    assert_eq!(chunk_indices(&names), vec![0, 2, 10]);
}

#[test]
fn written_chunks_come_back_once_each_ascending() {
    let names: Vec<String> = [7u32, 2, 0, 4_000_000_000].iter().map(|&i| chunk_file_name(i)).collect();
    assert_eq!(chunk_indices(&names), vec![0, 2, 7, 4_000_000_000]);
}

#[test]
fn thumbnails_are_cached_by_hash() {
    assert_eq!(cached_jpeg_name("abc"), "abc.jpg");
}

#[test]
fn a_new_record_is_stamped_with_the_ingest_time() {
    let r = rec("a", "b", "c");
    assert!(r.ingested_at > 1_700_000_000);
    assert_eq!(r.rel_path, "2026/x/IMG_0001.jpg");
}

#[test]
fn upload_stores_and_is_idempotent() {
    let mut storage = Storage::new("phone-sync".to_string());
    let sha = content_hash(b"fake-jpeg-bytes-hello-world");
    let first = storage.commit_upload(rec("asset-1", &sha, "2026-08-11T18:00:00Z"), false);
    assert!(!first);
    let second = storage.commit_upload(rec("asset-1", &sha, "2026-08-11T18:00:00Z"), true);
    assert!(second, "second identical upload is a duplicate");
    assert_eq!(storage.known_asset_ids(), vec!["asset-1".to_string()]);
    assert_eq!(storage.get_by_id(&sha).unwrap().asset_id, "asset-1");
    // The same bytes under another asset are not a duplicate of it.
    assert!(!storage.commit_upload(rec("asset-2", &sha, "2026-08-11T18:00:00Z"), true));
    assert_eq!(storage.known_asset_ids().len(), 2);
}

#[test]
fn all_records_are_newest_capture_first() {
    let mut storage = Storage::new("s".to_string());
    storage.index_record(rec("a", "1", "2026-01-01T00:00:00Z"));
    storage.index_record(rec("b", "2", "2026-03-01T00:00:00Z"));
    storage.index_record(rec("c", "3", "2026-02-01T00:00:00Z"));
    let ids: Vec<String> = storage.all_records().into_iter().map(|r| r.asset_id).collect();
    assert_eq!(ids, vec!["b", "c", "a"]);
    let (page, count) = storage.records_page(1, 5);
    assert_eq!(count, 3);
    assert_eq!(page.len(), 2);
    assert_eq!(page[0].asset_id, "c");
    assert_eq!(storage.folder_suffix(), "s");
}

#[test]
fn every_stored_name_is_a_single_safe_component() {
    let nasty = [
        "../../..", "..\\..\\x", "a/b/c.jpg", "con:aux?.png", " \u{7}bell\u{1b}.mov ", "....", "x.",
        "/", "dir/", "\u{85}name\u{a0}", "a|b\"c*d<e>f", "photo.tar.gz",
    ];
    for raw in nasty {
        for ct in ["image/jpeg", "video/quicktime", "application/x-unknown"] {
            let name = safe_filename(raw, ct);
            assert!(!name.is_empty(), "{raw:?}");
            assert!(!name.contains('/') && !name.contains('\\'), "{raw:?} -> {name:?}");
            assert!(!name.chars().any(|c| c.is_control() || "<>:\"|?*".contains(c)), "{raw:?} -> {name:?}");
            assert!(!name.starts_with('.') && !name.starts_with(char::is_whitespace), "{raw:?} -> {name:?}");
            assert!(name.rfind('.').map_or(false, |i| i > 0), "{raw:?} -> {name:?}");
        }
    }
}

#[test]
fn the_disambiguated_names_never_repeat_the_taken_one() {
    let sha = content_hash(b"x");
    for name in ["IMG_0001.jpg", "noext", "trailing.", ".hidden"] {
        let c = name_candidates(name, &sha);
        assert_ne!(c[0], c[1]);
        assert_ne!(c[0], c[2]);
        assert_ne!(c[1], c[2]);
    }
}

#[test]
fn content_fed_in_pieces_hashes_like_the_whole() {
    let mut h = ContentHasher::new();
    h.update(b"hello ");
    h.update(b"");
    h.update(b"world");
    assert_eq!(h.finish(), content_hash(b"hello world"));
    assert_eq!(
        ContentHasher::new().finish(),
        "e3b0c44298fc1c149afbf4c8996fb92427ae41e4649b934ca495991b7852b855"
    );
}

#[test]
fn assembled_content_is_checked_against_its_declared_hash() {
    let abc = "ba7816bf8f01cfea414140de5dae2223b00361a396177a9cb410ff61f20015ad";
    let mut h = ContentHasher::new();
    h.update(b"ab");
    h.update(b"c");
    assert!(check_assembled(h, abc).is_ok());
    let mut h = ContentHasher::new();
    h.update(b"ab");
    match check_assembled(h, abc) {
        Err(ApiError::Internal(_)) => {},
        other => panic!("expected an internal error, got {:?}", other),
    }
}

#[test]
fn identical_content_points_at_the_stored_copy() {
    let prior = make_record("a1", "sha", "IMG.jpg", "image/jpeg", "photo", "", "2025/202501-phone-sync/IMG.jpg".into(), StorageRoot::DataDir, 3);
    let r = place_upload("a2", "sha", "other.jpg", "image/jpeg", "photo", "2026-01-01", Placement::Stored(prior), 3);
    assert_eq!(r.asset_id, "a2");
    assert_eq!(r.filename, "other.jpg");
    assert_eq!(r.rel_path, "2025/202501-phone-sync/IMG.jpg");
    assert_eq!(r.storage_root, StorageRoot::DataDir);
    let r = place_upload("a3", "sha2", "new.jpg", "image/jpeg", "photo", "", Placement::Written("2026/202601-phone-sync/new.jpg".into()), 5);
    assert_eq!(r.rel_path, "2026/202601-phone-sync/new.jpg");
    assert_eq!(r.storage_root, StorageRoot::MediaRoot);
    assert_eq!(r.size, 5);
}
