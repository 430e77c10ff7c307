use axum::http::{header, HeaderMap};
use phone_sync_server::error::ApiError;
use phone_sync_server::handlers::{
    check_declared_hash, check_thumbnail_upload, check_upload_size, if_none_match_covers, is_unmodified,
    media_page, media_reply, page_limit, parse_range, quoted_etag, require_content_hash, upload_response,
    verify_item, MediaReply, RangeRequest, UploadPart, VerifyOutcome,
};
use phone_sync_server::storage::content_hash;
use phone_sync_server::models::{MediaRecord, PageQuery, StorageRoot};
use phone_sync_server::storage::Storage;

fn record(asset: &str, sha: &str, name: &str, ct: &str, created: &str) -> MediaRecord {
    MediaRecord {
        asset_id: asset.to_string(),
        sha256: sha.to_string(),
        filename: name.to_string(),
        content_type: ct.to_string(),
        media_type: "photo".to_string(),
        created_at: created.to_string(),
        rel_path: format!("2026/202603-phone-sync/{name}"),
        storage_root: StorageRoot::MediaRoot,
        size: 10,
        ingested_at: 0,
    }
}

#[test]
fn an_open_ended_range_runs_to_the_end_of_the_file() {
    assert_eq!(parse_range("bytes=0-", 1000), RangeRequest::Satisfiable { start: 0, end: 999 });
    assert_eq!(parse_range("bytes=500-", 1000), RangeRequest::Satisfiable { start: 500, end: 999 });
}

#[test]
fn safaris_opening_probe_is_a_two_byte_range() {
    assert_eq!(parse_range("bytes=0-1", 5_210_710_058), RangeRequest::Satisfiable { start: 0, end: 1 });
}

#[test]
fn a_suffix_range_reads_the_tail() {
    assert_eq!(parse_range("bytes=-500", 1000), RangeRequest::Satisfiable { start: 500, end: 999 });
    // Asking for more tail than exists simply yields the whole file.
    assert_eq!(parse_range("bytes=-5000", 1000), RangeRequest::Satisfiable { start: 0, end: 999 });
}

#[test]
fn an_end_past_the_file_is_clamped_rather_than_refused() {
    assert_eq!(parse_range("bytes=900-99999", 1000), RangeRequest::Satisfiable { start: 900, end: 999 });
}

#[test]
fn a_range_beyond_the_file_is_unsatisfiable() {
    assert_eq!(parse_range("bytes=2000-3000", 1000), RangeRequest::Unsatisfiable);
    assert_eq!(parse_range("bytes=0-0", 0), RangeRequest::Unsatisfiable);
}

#[test]
fn unsupported_forms_fall_back_to_the_whole_file() {
    assert_eq!(parse_range("items=0-1", 1000), RangeRequest::Absent);
    assert_eq!(parse_range("bytes=0-1,5-6", 1000), RangeRequest::Absent);
    assert_eq!(parse_range("bytes=abc-def", 1000), RangeRequest::Absent);
}

#[test]
fn a_malformed_range_on_an_empty_file_is_ignored() {
    assert_eq!(parse_range("bytes=abc-def", 0), RangeRequest::Absent);
    assert_eq!(parse_range("bytes=5-x", 0), RangeRequest::Absent);
    assert_eq!(parse_range("bytes=-x", 0), RangeRequest::Absent);
    assert_eq!(parse_range("items=0-1", 0), RangeRequest::Absent);
    assert_eq!(parse_range("bytes=5-", 0), RangeRequest::Unsatisfiable);
    assert_eq!(parse_range("bytes=-5", 0), RangeRequest::Unsatisfiable);
}

#[test]
fn conditional_requests_match_on_the_exact_tag() {
    let mut headers = HeaderMap::new();
    headers.insert(header::IF_NONE_MATCH, "\"abc-orig\"".parse().unwrap());
    assert!(is_unmodified(&headers, "\"abc-orig\""));
    assert!(!is_unmodified(&headers, "\"abc-thumb\""));

    headers.insert(header::IF_NONE_MATCH, "\"other\", \"abc-orig\"".parse().unwrap());
    assert!(is_unmodified(&headers, "\"abc-orig\""));
}

#[test]
fn a_rendition_never_shares_a_tag_with_the_original() {
    assert_ne!(quoted_etag("abc", "orig"), quoted_etag("abc", "thumb"));
}

#[test]
fn a_tag_is_the_quoted_hash_and_rendition() {
    assert_eq!(quoted_etag("abc", "orig"), "\"abc-orig\"");
}

#[test]
fn a_missing_conditional_header_is_never_a_cache_hit() {
    let headers = HeaderMap::new();
    assert!(!is_unmodified(&headers, "\"abc-orig\""));
    assert!(!if_none_match_covers(None, "\"abc-orig\""));
}

#[test]
fn a_wildcard_conditional_matches_anything() {
    assert!(if_none_match_covers(Some("*"), "\"abc-orig\""));
    assert!(if_none_match_covers(Some(" \"x\" ,\"abc-orig\" "), "\"abc-orig\""));
    assert!(!if_none_match_covers(Some("\"abc-orig\"x"), "\"abc-orig\""));
}

#[test]
fn a_leading_plus_and_whitespace_in_a_range_are_handled_like_from_str() {
    assert_eq!(parse_range("  bytes=+5-9 ", 100), RangeRequest::Satisfiable { start: 5, end: 9 });
    assert_eq!(parse_range("bytes=5", 100), RangeRequest::Absent);
    assert_eq!(parse_range("bytes=-0", 100), RangeRequest::Unsatisfiable);
    assert_eq!(parse_range("bytes=9-5", 100), RangeRequest::Unsatisfiable);
}

#[test]
fn a_conditional_request_without_a_range_is_not_modified() {
    assert!(matches!(media_reply(false, None, true, 1000), MediaReply::NotModified));
    // With a range, the cache tag is not enough.
    match media_reply(true, Some("bytes=0-9"), true, 1000) {
        MediaReply::Partial { start, length, content_range } => {
            assert_eq!(start, 0);
            assert_eq!(length, 10);
            assert_eq!(content_range, "bytes 0-9/1000");
        }
        other => panic!("expected a partial reply, got {other:?}"),
    }
}

#[test]
fn a_range_outside_the_file_is_answered_416() {
    match media_reply(true, Some("bytes=999999-1000000"), false, 50000) {
        MediaReply::Unsatisfiable { content_range } => assert_eq!(content_range, "bytes */50000"),
        other => panic!("expected 416, got {other:?}"),
    }
}

#[test]
fn an_open_ended_range_streams_from_its_offset() {
    match media_reply(true, Some("bytes=10000-"), false, 50000) {
        MediaReply::Partial { start, length, content_range } => {
            assert_eq!(start, 10000);
            assert_eq!(length, 40000);
            assert_eq!(content_range, "bytes 10000-49999/50000");
        }
        other => panic!("expected a partial reply, got {other:?}"),
    }
}

#[test]
fn no_or_unreadable_range_gets_the_whole_file() {
    assert!(matches!(media_reply(false, None, false, 7), MediaReply::Whole { length: 7 }));
    assert!(matches!(media_reply(true, None, true, 7), MediaReply::Whole { length: 7 }));
    assert!(matches!(media_reply(true, Some("items=0-1"), false, 7), MediaReply::Whole { length: 7 }));
}

#[test]
fn the_page_limit_is_clamped() {
    assert_eq!(page_limit(None, 120, 500), 120);
    assert_eq!(page_limit(Some(100000), 120, 500), 500);
    assert_eq!(page_limit(Some(0), 120, 500), 1);
    assert_eq!(page_limit(Some(5), 120, 500), 5);
}

#[test]
fn the_listing_is_paged_newest_first_and_counts_the_whole_library() {
    let mut storage = Storage::new("phone-sync".to_string());
    for day in 1..=12u32 {
        let created = format!("2026-03-{day:02}T12:00:00Z");
        let r = record(&format!("page-{day}"), &format!("{day:064}"), &format!("IMG_{day:04}.jpg"), "image/jpeg", &created);
        storage.index_record(r);
    }
    let first = media_page(&storage, &PageQuery { offset: Some(0), limit: Some(5) }, 120, 500);
    assert_eq!(first.count, 12);
    assert_eq!(first.offset, 0);
    assert_eq!(first.limit, 5);
    assert_eq!(first.items.len(), 5);
    assert_eq!(first.items[0].filename, "IMG_0012.jpg");
    let last = media_page(&storage, &PageQuery { offset: Some(10), limit: Some(5) }, 120, 500);
    assert_eq!(last.items.len(), 2);
    assert_eq!(last.items[1].filename, "IMG_0001.jpg");

    let mut seen = Vec::new();
    let mut offset = 0;
    while offset < 12 {
        let page = media_page(&storage, &PageQuery { offset: Some(offset), limit: Some(5) }, 120, 500);
        for item in &page.items {
            seen.push(item.asset_id.clone());
        }
        offset += page.items.len();
    }
    assert_eq!(seen.len(), 12);
    let mut dedup = seen.clone();
    dedup.sort();
    dedup.dedup();
    assert_eq!(dedup.len(), 12);

    let capped = media_page(&storage, &PageQuery { offset: None, limit: Some(100000) }, 120, 500);
    assert_eq!(capped.limit, 500);
    assert_eq!(capped.items.len(), 12);
}

#[test]
fn listing_items_say_how_each_format_is_shown() {
    let mut storage = Storage::new("phone-sync".to_string());
    storage.index_record(record("heic-flag", &"a".repeat(64), "IMG_1.HEIC", "image/heic", "2026-01-01T00:00:00Z"));
    storage.index_record(record("png-flag", &"b".repeat(64), "shot.png", "image/png", "2026-01-02T00:00:00Z"));
    storage.index_record(record("jpg-flag", &"c".repeat(64), "IMG_2.jpg", "image/jpeg", "2026-01-03T00:00:00Z"));
    storage.index_record(record("mov-flag", &"d".repeat(64), "IMG_3.MOV", "video/quicktime", "2026-01-04T00:00:00Z"));
    let page = media_page(&storage, &PageQuery { offset: None, limit: None }, 120, 500);
    for item in &page.items {
        assert!(item.thumbnailable);
        let expected = matches!(item.asset_id.as_str(), "png-flag" | "jpg-flag");
        assert_eq!(item.browser_displayable, expected, "{}", item.asset_id);
        if item.asset_id == "mov-flag" {
            assert_eq!(item.served_content_type, "video/mp4");
            assert_eq!(item.content_type, "video/quicktime");
        }
    }
}

#[test]
fn a_declared_hash_must_match_the_bytes() {
    assert!(check_declared_hash("", "abc").is_ok());
    assert!(check_declared_hash("abc", "abc").is_ok());
    assert!(matches!(check_declared_hash("deadbeef", "abc"), Err(ApiError::BadRequest(_))));
}

#[test]
fn an_oversized_part_is_refused() {
    assert!(check_upload_size(10, 10, UploadPart::File).is_ok());
    match check_upload_size(11, 10, UploadPart::Chunk) {
        Err(ApiError::BadRequest(m)) => assert_eq!(m, "chunk exceeds max upload size"),
        other => panic!("unexpected {other:?}"),
    }
    match check_upload_size(11, 10, UploadPart::File) {
        Err(ApiError::BadRequest(m)) => assert_eq!(m, "file exceeds max upload size"),
        other => panic!("unexpected {other:?}"),
    }
}

#[test]
fn a_thumbnail_needs_a_stored_item_and_bytes() {
    let mut storage = Storage::new("phone-sync".to_string());
    let sha = "e".repeat(64);
    storage.index_record(record("heic-1", &sha, "IMG_0001.HEIC", "image/heic", "2026-01-01T00:00:00Z"));
    assert!(check_thumbnail_upload(&storage, &sha, 10).is_ok());
    assert!(matches!(check_thumbnail_upload(&storage, &sha, 0), Err(ApiError::BadRequest(_))));
    assert!(matches!(check_thumbnail_upload(&storage, "nope", 10), Err(ApiError::BadRequest(_))));
}

#[test]
fn a_path_traversing_hash_is_a_bad_request() {
    for sha in ["pwned", "../../pwned", "..\\..\\pwned", "not-hex-but-64-characters-long-aaaaaaaaaaaaaaaaaaaaaaaaaaaaaaaa", "abc"] {
        match require_content_hash(sha) {
            Err(e) => assert_eq!(e.status_code(), 400),
            Ok(()) => panic!("{sha:?} must be rejected"),
        }
    }
    assert!(require_content_hash(&"0a".repeat(32)).is_ok());
}

#[test]
fn the_upload_reply_is_keyed_by_content() {
    let r = record("asset-1", "abc", "IMG_0001.jpg", "image/jpeg", "2026-08-11T18:00:00Z");
    let reply = upload_response(&r, true);
    assert_eq!(reply.id, "abc");
    assert_eq!(reply.sha256, "abc");
    assert!(reply.stored);
    assert!(reply.duplicate);
}

#[test]
fn verify_confirms_only_exact_full_items() {
    let bytes = b"the-only-copy-of-this-photo";
    let sha = content_hash(bytes);
    let mut r = record("del-1", &sha, "IMG_9.jpg", "image/jpeg", "2026-08-11T18:00:00Z");
    r.size = bytes.len() as u64;
    let ok = verify_item(Some(&r), r.size, true, Some(&content_hash(bytes)));
    assert_eq!(ok, VerifyOutcome::Verified);
    assert!(ok.verified());
    assert_eq!(ok.reason(), "ok");
    let missing = verify_item(None, 10, true, None);
    assert!(!missing.verified());
    assert_eq!(missing.reason(), "not_found");
    let wrong_size = verify_item(Some(&r), r.size + 1, true, Some(&sha));
    assert_eq!(wrong_size.reason(), "size_mismatch");
    let corrupt = verify_item(Some(&r), r.size, true, Some(&content_hash(b"the-only-copy-of-this-photX")));
    assert!(!corrupt.verified());
    assert_eq!(corrupt.reason(), "hash_mismatch");
    // A shallow check trusts the index.
    assert_eq!(verify_item(Some(&r), r.size, false, None), VerifyOutcome::Verified);
    assert_eq!(verify_item(Some(&r), r.size, true, None), VerifyOutcome::NotFound);
}
