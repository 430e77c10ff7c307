use phone_sync_server::models::{MediaRecord, StorageRoot};
use phone_sync_server::order::sort_newest_first;
use phone_sync_server::publish::{
    base64_encode, build_published_item, feed, has_playable_rendition, new_public_id, non_empty, rendition_key,
    lqip_data_uri, variant_sizes, FeedQuery, PublicItem, PublishFields, PublishStore, PublishedItem,
    RenderedSizes, Variant,
};

#[test]
fn base64_matches_the_rfc_test_vectors() {
    assert_eq!(base64_encode(b""), "");
    assert_eq!(base64_encode(b"f"), "Zg==");
    assert_eq!(base64_encode(b"fo"), "Zm8=");
    assert_eq!(base64_encode(b"foo"), "Zm9v");
    assert_eq!(base64_encode(b"foob"), "Zm9vYg==");
    assert_eq!(base64_encode(b"fooba"), "Zm9vYmE=");
    assert_eq!(base64_encode(b"foobar"), "Zm9vYmFy");
}

#[test]
fn only_the_known_variants_parse() {
    assert_eq!(Variant::parse("grid"), Some(Variant::Grid));
    assert_eq!(Variant::parse("v1080"), Some(Variant::V1080));
    assert_eq!(Variant::parse("../../jwt-secret"), None);
    assert_eq!(Variant::parse("index.json"), None);
    assert_eq!(Variant::parse(""), None);
}

#[test]
fn a_variant_may_carry_its_own_extension() {
    assert_eq!(Variant::parse("grid.jpg"), Some(Variant::Grid));
    assert_eq!(Variant::parse("full.jpg"), Some(Variant::Full));
    assert_eq!(Variant::parse("v540.mp4"), Some(Variant::V540));
    // A contradictory or unknown extension is refused rather than ignored.
    assert_eq!(Variant::parse("grid.mp4"), None);
    assert_eq!(Variant::parse("v1080.exe"), None);
    assert_eq!(Variant::parse("grid.jpg.exe"), None);
}

#[test]
fn every_variant_round_trips_through_its_names() {
    for v in [Variant::Grid, Variant::Full, Variant::Loop, Variant::V540, Variant::V1080] {
        assert_eq!(Variant::parse(v.key()), Some(v));
        assert_eq!(Variant::parse(v.file_name()), Some(v));
        assert_eq!(v.file_name(), format!("{}.{}", v.key(), v.extension()));
    }
    assert_eq!(Variant::Loop.content_type(), "video/mp4");
    assert_eq!(Variant::Grid.content_type(), "image/jpeg");
}

#[test]
fn public_ids_are_unpredictable_and_url_safe() {
    let a = new_public_id();
    let b = new_public_id();
    assert_ne!(a, b);
    assert_eq!(a.len(), 16);
    assert!(a.chars().all(|c| c.is_ascii_hexdigit()));
}

/// A minimal item for ordering tests.
fn sample(public_id: &str) -> PublishedItem {
    PublishedItem {
        public_id: public_id.into(),
        sha256: String::new(),
        kind: "photo".into(),
        captured_at: String::new(),
        published_at: 0,
        filename: String::new(),
        width: 1,
        height: 1,
        duration_bits: None,
        title: None,
        caption: None,
        featured: false,
        color: [0, 0, 0],
        lqip: String::new(),
        bytes: Vec::new(),
    }
}

#[test]
fn the_index_is_ordered_newest_capture_first() {
    let mut items = vec![
        PublishedItem { captured_at: "2026-01-01T00:00:00Z".into(), ..sample("old") },
        PublishedItem { captured_at: "2026-08-01T00:00:00Z".into(), ..sample("new") },
    ];
    sort_newest_first(&mut items);
    assert_eq!(items[0].public_id, "new");
}

#[test]
fn a_public_item_cannot_carry_the_content_hash() {
    let item = PublishedItem {
        public_id: "abc123".into(),
        sha256: "deadbeef".into(),
        kind: "photo".into(),
        captured_at: "2026-08-01T00:00:00Z".into(),
        published_at: 0,
        filename: "IMG_0001.HEIC".into(),
        width: 100,
        height: 80,
        duration_bits: None,
        title: None,
        caption: None,
        featured: false,
        color: [1, 2, 3],
        lqip: "data:,".into(),
        bytes: vec![("grid".to_string(), 10)],
    };
    let public = PublicItem::from(&item);
    assert_eq!(public.public_id, "abc123");
    assert_eq!(public.width, 100);
    assert_eq!(public.variants, vec!["grid".to_string()]);
    let debug = format!("{public:?}");
    assert!(!debug.contains("deadbeef"), "the public feed leaked a content hash: {debug}");
    assert!(!debug.contains("sha256"));
    assert!(debug.contains("variants: [\"grid\"]"));
    assert!(!debug.contains("IMG_0001"));
}

fn item(id: &str, sha: &str, kind: &str, captured: &str, featured: bool) -> PublishedItem {
    PublishedItem {
        public_id: id.into(),
        sha256: sha.into(),
        kind: kind.into(),
        captured_at: captured.into(),
        featured,
        bytes: vec![("full".to_string(), 5), ("grid".to_string(), 3)],
        ..sample(id)
    }
}

fn store() -> PublishStore {
    PublishStore::new(vec![
        item("p1", "s1", "photo", "2026-01-01T00:00:00Z", false),
        item("v1", "s2", "video", "2026-02-01T00:00:00Z", true),
        item("p2", "s3", "photo", "2026-03-01T00:00:00Z", true),
        item("p3", "s4", "photo", "2026-04-01T00:00:00Z", false),
    ])
}

#[test]
fn the_store_keeps_newest_capture_first() {
    let s = store();
    let ids: Vec<String> = s.all().into_iter().map(|i| i.public_id).collect();
    assert_eq!(ids, vec!["p3", "p2", "v1", "p1"]);
    assert_eq!(s.counts(), (3, 1));
}

#[test]
fn the_feed_pages_with_a_cursor_and_filters_by_kind() {
    let s = store();
    let first = feed(&s, &FeedQuery { cursor: None, limit: Some(3), kind: None });
    assert_eq!(first.total, 4);
    assert_eq!(first.items.len(), 3);
    assert_eq!(first.next_cursor, Some(3));
    assert_eq!((first.photos, first.videos), (3, 1));
    let second = feed(&s, &FeedQuery { cursor: first.next_cursor, limit: Some(3), kind: None });
    assert_eq!(second.items.len(), 1);
    assert_eq!(second.items[0].public_id, "p1");
    assert_eq!(second.next_cursor, None);

    let featured = feed(&s, &FeedQuery { cursor: None, limit: None, kind: Some("featured".into()) });
    assert_eq!(featured.total, 2);
    let videos = feed(&s, &FeedQuery { cursor: None, limit: Some(0), kind: Some("video".into()) });
    assert_eq!(videos.items.len(), 1);
    assert_eq!(videos.items[0].public_id, "v1");
    let anything = feed(&s, &FeedQuery { cursor: Some(99), limit: Some(1000), kind: Some("other".into()) });
    assert_eq!(anything.total, 4);
    assert!(anything.items.is_empty());
    assert_eq!(anything.next_cursor, None);
}

#[test]
fn an_edit_is_read_back_by_public_id() {
    let mut s = store();
    let fields = PublishFields { title: Some("  Beach  ".into()), caption: Some("   ".into()), featured: Some(true) };
    let edited = s.update("p1", &fields).unwrap();
    assert_eq!(edited.title.as_deref(), Some("Beach"));
    assert_eq!(edited.caption, None);
    assert!(edited.featured);
    let read = s.by_public_id("p1").unwrap();
    assert_eq!(read.title.as_deref(), Some("Beach"));
    assert!(read.featured);
    assert!(s.update("nope", &fields).is_none());
}

#[test]
fn republishing_returns_the_existing_entry() {
    let mut s = store();
    let fields = PublishFields { title: Some("Again".into()), caption: None, featured: None };
    let again = s.republish("s2", &fields).unwrap();
    assert_eq!(again.public_id, "v1");
    assert_eq!(again.title.as_deref(), Some("Again"));
    assert_eq!(s.all().len(), 4);
    assert!(s.republish("unknown", &fields).is_none());
    assert_eq!(s.by_sha256("s3").unwrap().public_id, "p2");
}

#[test]
fn unpublishing_removes_the_item() {
    let mut s = store();
    assert!(s.remove("p2"));
    assert!(!s.remove("p2"));
    assert!(s.by_public_id("p2").is_none());
    assert_eq!(s.all().len(), 3);
}

#[test]
fn a_new_item_is_inserted_in_capture_order() {
    let mut s = store();
    s.insert(item("n1", "s9", "photo", "2026-02-15T00:00:00Z", false));
    let ids: Vec<String> = s.all().into_iter().map(|i| i.public_id).collect();
    assert_eq!(ids, vec!["p3", "p2", "n1", "v1", "p1"]);
}

#[test]
fn only_produced_variants_of_known_items_resolve_to_a_file() {
    let s = store();
    assert_eq!(s.variant_file("p1", Variant::Grid), Some("grid.jpg"));
    assert_eq!(s.variant_file("p1", Variant::V1080), None);
    assert_eq!(s.variant_file("../../etc", Variant::Grid), None);
}

#[test]
fn text_fields_are_trimmed_and_blank_ones_dropped() {
    assert_eq!(non_empty("  hi  ").as_deref(), Some("hi"));
    assert_eq!(non_empty(" \t "), None);
}

#[test]
fn rendition_keys_drop_the_container_extension() {
    assert_eq!(rendition_key("v1080.mp4"), "v1080");
    assert_eq!(rendition_key("v540.mp4"), "v540");
    assert_eq!(rendition_key("a.mp4.mp4"), "a");
    assert!(has_playable_rendition(&vec![("grid".into(), 1), ("v540".into(), 2)]));
    assert!(!has_playable_rendition(&vec![("grid".into(), 1), ("loop".into(), 2)]));
}

#[test]
fn a_rendered_record_becomes_an_index_entry() {
    let record = MediaRecord {
        asset_id: "a".into(),
        sha256: "abc".into(),
        filename: "IMG_1.MOV".into(),
        content_type: "video/quicktime".into(),
        media_type: "video".into(),
        created_at: "2026-08-01T00:00:00Z".into(),
        rel_path: "2026/202608-phone-sync/IMG_1.MOV".into(),
        storage_root: StorageRoot::MediaRoot,
        size: 1,
        ingested_at: 0,
    };
    let fields = PublishFields { title: Some(" T ".into()), caption: None, featured: None };
    let sizes = RenderedSizes { full: 5, grid: 3, loop_clip: Some(4), v1080: None, v540: Some(9) };
    let built = build_published_item(
        "pid".into(),
        &record,
        &fields,
        7,
        1920,
        1080,
        Some(12.5f64.to_bits()),
        [1, 2, 3],
        b"foo",
        &sizes,
    )
    .unwrap();
    assert_eq!(built.kind, "video");
    assert_eq!(built.sha256, "abc");
    assert_eq!(built.captured_at, "2026-08-01T00:00:00Z");
    assert_eq!(built.title.as_deref(), Some("T"));
    assert!(!built.featured);
    assert_eq!(built.duration_bits.map(f64::from_bits), Some(12.5));
    assert_eq!(built.lqip, "data:image/jpeg;base64,Zm9v");
    let keys: Vec<&str> = built.bytes.iter().map(|(k, _)| k.as_str()).collect();
    assert_eq!(keys, vec!["full", "grid", "loop", "v540"]);
    let no_video = RenderedSizes { full: 5, grid: 3, loop_clip: Some(4), v1080: None, v540: None };
    assert!(build_published_item("p".into(), &record, &fields, 0, 1, 1, None, [0, 0, 0], b"", &no_video).is_none());
    let mut photo = record;
    photo.media_type = "photo".into();
    let still = RenderedSizes { full: 5, grid: 3, loop_clip: None, v1080: None, v540: None };
    let item = build_published_item("p".into(), &photo, &fields, 0, 1, 1, None, [0, 0, 0], b"", &still).unwrap();
    assert_eq!(item.kind, "photo");
    assert_eq!(item.lqip, "data:image/jpeg;base64,");
    assert_eq!(item.bytes, vec![("full".to_string(), 5), ("grid".to_string(), 3)]);
}

#[test]
fn the_variant_list_is_in_key_order() {
    let all = RenderedSizes { full: 1, grid: 2, loop_clip: Some(3), v1080: Some(4), v540: Some(5) };
    let v = variant_sizes(true, &all).unwrap();
    let keys: Vec<&str> = v.iter().map(|(k, _)| k.as_str()).collect();
    assert_eq!(keys, vec!["full", "grid", "loop", "v1080", "v540"]);
    let mut sorted = keys.clone();
    sorted.sort();
    assert_eq!(keys, sorted);
    assert_eq!(lqip_data_uri(b"fo"), "data:image/jpeg;base64,Zm8=");
}

#[test]
fn base64_output_is_four_characters_per_three_bytes() {
    for n in 0..20usize {
        let input: Vec<u8> = (0..n as u8).collect();
        assert_eq!(base64_encode(&input).len(), (n + 2) / 3 * 4);
    }
}

#[test]
fn a_segment_resolves_only_from_a_key_or_file_name() {
    for v in [Variant::Grid, Variant::Full, Variant::Loop, Variant::V540, Variant::V1080] {
        assert_eq!(Variant::parse(v.key()), Some(v));
        assert_eq!(Variant::parse(v.file_name()), Some(v));
        assert_eq!(Variant::parse(&format!("{}.", v.key())), None);
        assert_eq!(Variant::parse(&format!("{}.{}.x", v.key(), v.extension())), None);
        assert_eq!(Variant::parse(&v.key().to_uppercase()), None);
    }
    assert_eq!(Variant::parse("loop.mp4"), Some(Variant::Loop));
    assert_eq!(Variant::parse("v1080.mp4"), Some(Variant::V1080));
    assert_eq!(Variant::parse(".jpg"), None);
}
