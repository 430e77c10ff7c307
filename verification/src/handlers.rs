//! The request-level rules behind the media endpoints: which bytes a `Range`
//! header asks for, how a rendition is tagged for caching, and when a
//! conditional request can be answered from the client's own cache.

use vstd::prelude::*;
use vstd::string::StringSliceAdditionalSpecFns;

use axum::http::HeaderMap;

use crate::error::ApiError;
use crate::models::{MediaListItem, MediaListResponse, MediaRecord, PageQuery, UploadResponse};
use crate::order::newest_first_order;
use crate::storage::{
    decodable_image_name, decodable_image_type, is_browser_displayable, lowercase, page_of, served_content_type,
    served_content_type_spec, Storage,
};
use crate::text::{decimal, decimal_chars, push_chars, all_digits, is_digit, is_ws, lemma_decimal_parses_back,
    lemma_first_index_of_found, lemma_trim_unchanged,
    chars_eq, chars_starts_with, contains_char, find_char, first_index_of, parse_u64, parse_u64_spec,
    slice_chars, str_chars, string_push, trim, trim_chars,
};

verus! {

#[verifier::external_type_specification]
#[verifier::external_body]
#[verifier::reject_recursive_types(T)]
pub struct ExHeaderMap<T>(HeaderMap<T>);

/// A header map's values, which its type names as its default parameter.
#[verifier::external_type_specification]
#[verifier::external_body]
pub struct ExHeaderValue(axum::http::HeaderValue);

/// What a client's `Range` header amounts to for a file of a known size.
#[derive(Debug, PartialEq, Eq, Clone, Copy, Structural)]
pub enum RangeRequest {
    /// No range header, or one in a form not implemented here — send the whole file.
    Absent,
    /// A range that falls within the file, as inclusive byte offsets.
    Satisfiable { start: u64, end: u64 },
    /// A well-formed range that lies outside the file — must be answered 416.
    Unsatisfiable,
}

/// The only range unit understood: `bytes=`.
pub open spec fn bytes_unit() -> Seq<char> {
    seq!['b', 'y', 't', 'e', 's', '=']
}

/// The range named by the two halves of `start-end`, for a file of `total`
/// bytes. Bounds that are not numbers make the form unsupported (`Absent`);
/// only a well-formed range can be refused as lying outside the file, which
/// every range on an empty file does.
pub open spec fn range_bounds_spec(start_str: Seq<char>, end_str: Seq<char>, total: u64) -> RangeRequest {
    if start_str.len() == 0 {
        // `bytes=-N`: the final N bytes.
        match parse_u64_spec(end_str) {
            None => RangeRequest::Absent,
            Some(n) => if n == 0 || total == 0 {
                RangeRequest::Unsatisfiable
            } else {
                RangeRequest::Satisfiable {
                    start: if n >= total { 0 } else { (total - n) as u64 },
                    end: (total - 1) as u64,
                }
            },
        }
    } else {
        match parse_u64_spec(start_str) {
            None => RangeRequest::Absent,
            Some(start) => if end_str.len() > 0 && parse_u64_spec(end_str) is None {
                RangeRequest::Absent
            } else if total == 0 {
                RangeRequest::Unsatisfiable
            } else {
                let end: u64 = if end_str.len() == 0 {
                    (total - 1) as u64
                } else {
                    let v = parse_u64_spec(end_str).unwrap();
                    if v < total - 1 { v } else { (total - 1) as u64 }
                };
                if start > end || start >= total {
                    RangeRequest::Unsatisfiable
                } else {
                    RangeRequest::Satisfiable { start, end }
                }
            },
        }
    }
}

/// The meaning of a `Range` header value: a single `bytes=start-end`,
/// `bytes=start-` or `bytes=-suffix` range; anything multi-range or in another
/// unit is `Absent`.
pub open spec fn range_spec(header: Seq<char>, total: u64) -> RangeRequest {
    let t = trim(header);
    if !(t.len() >= 6 && t.take(6) == bytes_unit()) {
        RangeRequest::Absent
    } else if t.skip(6).contains(',') {
        RangeRequest::Absent
    } else {
        let s = trim(t.skip(6));
        match first_index_of(s, '-') {
            None => RangeRequest::Absent,
            Some(i) => range_bounds_spec(s.take(i), s.skip(i + 1), total),
        }
    }
}

/// A header `bytes=<a>-<b>` whose halves are plain digits (either may be
/// empty) is read as exactly those two halves.
proof fn lemma_range_header_halves(a: Seq<char>, b: Seq<char>, total: u64)
    requires
        all_digits(a),
        all_digits(b),
    ensures
        range_spec(seq!['b', 'y', 't', 'e', 's', '='] + a + seq!['-'] + b, total) == range_bounds_spec(a, b, total),
{
    let unit = seq!['b', 'y', 't', 'e', 's', '='];
    let rest = a + seq!['-'] + b;
    let h = unit + a + seq!['-'] + b;
    assert(h =~= unit + rest);
    let dash = a.len() as int;
    assert(rest[dash] == '-');
    assert forall|k: int| 0 <= k < rest.len() implies rest[k] == '-' || is_digit(#[trigger] rest[k]) by {
        if k < dash {
            assert(rest[k] == a[k]);
        } else if k > dash {
            assert(rest[k] == b[k - dash - 1]);
        }
    }
    assert(!is_ws('-') && !is_ws('b'));
    assert forall|c: char| is_digit(c) implies !is_ws(c) && c != '-' && c != ',' by {}
    assert(rest.last() == '-' || is_digit(rest.last()));
    assert(h[0] == 'b');
    assert(h.last() == rest.last());
    lemma_trim_unchanged(h);
    assert(h.take(6) =~= bytes_unit());
    assert(h.skip(6) =~= rest);
    assert(!rest.contains(',')) by {
        if rest.contains(',') {
            let j = choose|j: int| 0 <= j < rest.len() && rest[j] == ',';
            assert(rest[j] == '-' || is_digit(rest[j]));
        }
    }
    assert(rest[0] == '-' || is_digit(rest[0]));
    lemma_trim_unchanged(rest);
    lemma_first_index_of_found(rest, '-');
    let i = first_index_of(rest, '-')->0;
    assert(i == dash) by {
        if i < dash {
            assert(rest[i] == a[i]);
        } else if i > dash {
            assert(rest[dash] != '-');
        }
    }
    assert(rest.take(i) =~= a);
    assert(rest.skip(i + 1) =~= b);
}

/// An open-ended range always runs to the file's last byte: `bytes=S-` on a
/// file of `total` bytes, with `S` inside the file, asks for bytes `S` through
/// `total - 1`, however large the file.
pub proof fn lemma_open_range_runs_to_the_last_byte(start: u64, total: u64)
    requires
        start < total,
    ensures
        range_spec(seq!['b', 'y', 't', 'e', 's', '='] + decimal(start as nat) + seq!['-'], total)
            == (RangeRequest::Satisfiable { start, end: (total - 1) as u64 }),
{
    lemma_decimal_parses_back(start as nat);
    let e = Seq::<char>::empty();
    lemma_range_header_halves(decimal(start as nat), e, total);
    assert(seq!['b', 'y', 't', 'e', 's', '='] + decimal(start as nat) + seq!['-'] + e =~= seq![
        'b',
        'y',
        't',
        'e',
        's',
        '=',
    ] + decimal(start as nat) + seq!['-']);
}

/// `bytes=S-E` with `S <= E` and `S` inside the file asks for bytes `S`
/// through `E`, cut short at the file's last byte.
pub proof fn lemma_closed_range_is_clamped_to_the_file(start: u64, end: u64, total: u64)
    requires
        start <= end,
        start < total,
    ensures
        range_spec(
            seq!['b', 'y', 't', 'e', 's', '='] + decimal(start as nat) + seq!['-'] + decimal(end as nat),
            total,
        ) == (RangeRequest::Satisfiable {
            start,
            end: if end < total - 1 {
                end
            } else {
                (total - 1) as u64
            },
        }),
{
    lemma_decimal_parses_back(start as nat);
    lemma_decimal_parses_back(end as nat);
    lemma_range_header_halves(decimal(start as nat), decimal(end as nat), total);
}

/// A range that starts at or past the end of the file is refused, with or
/// without an end.
pub proof fn lemma_range_past_the_end_is_unsatisfiable(start: u64, total: u64)
    ensures
        start >= total ==> range_spec(seq!['b', 'y', 't', 'e', 's', '='] + decimal(start as nat) + seq!['-'], total)
            == RangeRequest::Unsatisfiable,
{
    lemma_decimal_parses_back(start as nat);
    let e = Seq::<char>::empty();
    lemma_range_header_halves(decimal(start as nat), e, total);
    assert(seq!['b', 'y', 't', 'e', 's', '='] + decimal(start as nat) + seq!['-'] + e =~= seq![
        'b',
        'y',
        't',
        'e',
        's',
        '=',
    ] + decimal(start as nat) + seq!['-']);
}

/// `bytes=-N` asks for the final `N` bytes (the whole file when it is
/// shorter), ending at its last byte.
pub proof fn lemma_suffix_range_ends_at_the_last_byte(n: u64, total: u64)
    requires
        n > 0,
        total > 0,
    ensures
        range_spec(seq!['b', 'y', 't', 'e', 's', '=', '-'] + decimal(n as nat), total) == (RangeRequest::Satisfiable {
            start: if n >= total {
                0
            } else {
                (total - n) as u64
            },
            end: (total - 1) as u64,
        }),
{
    lemma_decimal_parses_back(n as nat);
    let e = Seq::<char>::empty();
    assert(all_digits(e));
    lemma_range_header_halves(e, decimal(n as nat), total);
    assert(seq!['b', 'y', 't', 'e', 's', '='] + e + seq!['-'] + decimal(n as nat) =~= seq![
        'b',
        'y',
        't',
        'e',
        's',
        '=',
        '-',
    ] + decimal(n as nat));
}

fn range_bounds(start_str: &Vec<char>, end_str: &Vec<char>, total: u64) -> (res: RangeRequest)
    ensures
        res == range_bounds_spec(start_str@, end_str@, total),
{
    if start_str.len() == 0 {
        let suffix = match parse_u64(end_str) {
            Some(n) => n,
            None => return RangeRequest::Absent,
        };
        if suffix == 0 || total == 0 {
            return RangeRequest::Unsatisfiable;
        }
        let start = total.saturating_sub(suffix);
        return RangeRequest::Satisfiable { start, end: total - 1 };
    }
    let start = match parse_u64(start_str) {
        Some(v) => v,
        None => return RangeRequest::Absent,
    };
    let end_value = if end_str.len() == 0 {
        None
    } else {
        match parse_u64(end_str) {
            Some(v) => Some(v),
            None => return RangeRequest::Absent,
        }
    };
    if total == 0 {
        return RangeRequest::Unsatisfiable;
    }
    let end = match end_value {
        None => total - 1,
        Some(v) => if v < total - 1 {
            v
        } else {
            total - 1
        },
    };
    if start > end || start >= total {
        return RangeRequest::Unsatisfiable;
    }
    RangeRequest::Satisfiable { start, end }
}

/// Parses a single-range `Range: bytes=start-end` header.
///
/// Also handles the suffix form (`bytes=-500`, the last 500 bytes). Anything
/// multi-range or otherwise unsupported is reported as
/// [`RangeRequest::Absent`] so the whole file is sent.
/// @param header_value - the raw `Range` header
/// @param total - size of the file in bytes
pub fn parse_range(header_value: &str, total: u64) -> (res: RangeRequest)
    ensures
        res == range_spec(header_value@, total),
        res matches RangeRequest::Satisfiable { start, end } ==> start <= end < total,
{
    let raw = str_chars(header_value);
    let t = trim_chars(&raw);
    let unit = vec!['b', 'y', 't', 'e', 's', '='];
    assert(unit@ == bytes_unit());
    if !chars_starts_with(&t, &unit) {
        return RangeRequest::Absent;
    }
    let spec = slice_chars(&t, 6, t.len());
    assert(spec@ =~= t@.skip(6));
    if contains_char(&spec, ',') {
        return RangeRequest::Absent;
    }
    let s = trim_chars(&spec);
    match find_char(&s, '-') {
        None => RangeRequest::Absent,
        Some(i) => {
            let start_str = slice_chars(&s, 0, i);
            let end_str = slice_chars(&s, i + 1, s.len());
            assert(start_str@ =~= s@.take(i as int));
            assert(end_str@ =~= s@.skip(i + 1));
            range_bounds(&start_str, &end_str, total)
        },
    }
}

/// Builds the quoted ETag for a content hash: `"<sha256>-<variant>"`. Each
/// rendition of the same content gets its own tag, so an original and its
/// thumbnail can never be mistaken for one another by a cache.
/// @param sha256 - the content hash
/// @param variant - which rendition ("orig", "thumb", "preview")
pub fn quoted_etag(sha256: &str, variant: &str) -> (res: String)
    ensures
        res@ == etag_spec(sha256@, variant@),
{
    let mut res = String::new();
    string_push(&mut res, '"');
    res.append(sha256);
    string_push(&mut res, '-');
    res.append(variant);
    string_push(&mut res, '"');
    assert(res@ =~= etag_spec(sha256@, variant@));
    res
}

/// The tag `quoted_etag` builds.
pub open spec fn etag_spec(sha256: Seq<char>, variant: Seq<char>) -> Seq<char> {
    seq!['"'] + sha256 + seq!['-'] + variant + seq!['"']
}

/// `[a, b)` is one element of the comma-separated list `s`: it starts at the
/// beginning or just after a comma, ends at the end or just before a comma,
/// and holds no comma itself.
pub open spec fn is_list_element(s: Seq<char>, a: int, b: int) -> bool {
    &&& 0 <= a <= b <= s.len()
    &&& a == 0 || s[a - 1] == ','
    &&& b == s.len() || s[b] == ','
    &&& forall|k: int| a <= k < b ==> s[k] != ','
}

/// Some element of the comma-separated list `s`, trimmed, equals `tag`.
pub open spec fn list_contains_tag(s: Seq<char>, tag: Seq<char>) -> bool {
    exists|a: int, b: int| #[trigger] is_list_element(s, a, b) && trim(s.subrange(a, b)) == tag
}

/// When an `If-None-Match` value covers `etag`: `*`, or a list one of whose
/// trimmed elements is exactly the tag.
pub open spec fn if_none_match_covers_spec(value: Option<Seq<char>>, etag: Seq<char>) -> bool {
    match value {
        None => false,
        Some(v) => v == seq!['*'] || list_contains_tag(v, etag),
    }
}

/// True when the `If-None-Match` value (if the request had a readable one)
/// names this exact content.
/// @param value - the `If-None-Match` header value, if present and readable
/// @param etag - the tag for the content being served
pub fn if_none_match_covers(value: Option<&str>, etag: &str) -> (res: bool)
    ensures
        res == if_none_match_covers_spec(
            match value {
                Some(v) => Some(v@),
                None => None,
            },
            etag@,
        ),
{
    let v = match value {
        None => return false,
        Some(v) => str_chars(v),
    };
    let star = vec!['*'];
    if chars_eq(&v, &star) {
        assert(star@ =~= seq!['*']);
        return true;
    }
    assert(v@ != seq!['*']) by {
        assert(star@ =~= seq!['*']);
    }
    let tag = str_chars(etag);
    let n = v.len();
    let mut found = false;
    let mut start: usize = 0;
    let mut i: usize = 0;
    while i < n
        invariant
            start <= i <= n,
            n == v@.len(),
            start == 0 || v@[start - 1] == ',',
            forall|k: int| start <= k < i ==> v@[k] != ',',
            found <==> exists|a: int, b: int|
                #[trigger] is_list_element(v@, a, b) && b < i && trim(v@.subrange(a, b)) == tag@,
        decreases n - i,
    {
        if v[i] == ',' {
            let hit = element_is(&v, start, i, &tag);
            proof {
                lemma_element_at(v@, start as int, i as int);
                if hit {
                    assert(is_list_element(v@, start as int, i as int));
                }
            }
            found = found || hit;
            start = i + 1;
        }
        i += 1;
    }
    let hit = element_is(&v, start, n, &tag);
    proof {
        lemma_element_at(v@, start as int, n as int);
        if hit {
            assert(is_list_element(v@, start as int, n as int));
        }
        assert forall|a: int, b: int| #[trigger] is_list_element(v@, a, b) implies b < n || b == n by {}
    }
    found || hit
}

/// Whether `v@[start..end]`, trimmed, is exactly `tag`.
fn element_is(v: &Vec<char>, start: usize, end: usize, tag: &Vec<char>) -> (res: bool)
    requires
        start <= end <= v@.len(),
    ensures
        res == (trim(v@.subrange(start as int, end as int)) == tag@),
{
    let piece = slice_chars(v, start, end);
    let trimmed = trim_chars(&piece);
    chars_eq(&trimmed, tag)
}

/// The list element ending at `end` (a comma or the end) is the one starting
/// at `start`, the position just after the previous comma.
proof fn lemma_element_at(s: Seq<char>, start: int, end: int)
    requires
        0 <= start <= end <= s.len(),
        start == 0 || s[start - 1] == ',',
        end == s.len() || s[end] == ',',
        forall|k: int| start <= k < end ==> s[k] != ',',
    ensures
        is_list_element(s, start, end),
        forall|a: int| #[trigger] is_list_element(s, a, end) ==> a == start,
{
    assert forall|a: int| #[trigger] is_list_element(s, a, end) implies a == start by {
        if a < start {
            assert(s[start - 1] == ',');
        } else if a > start {
            assert(s[a - 1] == ',');
        }
    }
}

/// What a header map holds: for each header name (lowercase, as the map
/// stores it), its values in the order they were added, as bytes.
pub uninterp spec fn header_values(headers: HeaderMap) -> Map<Seq<char>, Seq<Seq<u8>>>;

/// A byte `HeaderValue::to_str` accepts: visible ASCII or a tab.
pub open spec fn is_visible_ascii(b: u8) -> bool {
    (32 <= b && b < 127) || b == 9
}

/// A header value as text, when every byte of it is visible ASCII.
pub open spec fn header_text(v: Seq<u8>) -> Option<Seq<char>> {
    if forall|i: int| 0 <= i < v.len() ==> is_visible_ascii(#[trigger] v[i]) {
        Some(v.map_values(|b: u8| b as char))
    } else {
        None
    }
}

/// The first value of header `name` as text: None when the header is absent
/// or that value is not visible ASCII.
pub open spec fn first_header_text(headers: HeaderMap, name: Seq<char>) -> Option<Seq<char>> {
    let m = header_values(headers);
    if m.contains_key(name) && m[name].len() > 0 {
        header_text(m[name][0])
    } else {
        None
    }
}

/// `HeaderMap::get(IF_NONE_MATCH)` then `HeaderValue::to_str`: the first
/// `if-none-match` value (the map's `get` returns the first of several), as
/// text when all its bytes are visible ASCII or tabs (what `to_str` checks),
/// else None; None too when the header is absent.
#[verifier::external_body]
fn if_none_match_value(headers: &HeaderMap) -> (res: Option<&str>)
    ensures
        res is Some ==> header_values(*headers).contains_key("if-none-match"@) && header_values(
            *headers,
        )["if-none-match"@].len() > 0 && header_text(header_values(*headers)["if-none-match"@][0]) == Some(
            res.unwrap()@,
        ),
        res is None ==> !(header_values(*headers).contains_key("if-none-match"@) && header_values(
            *headers,
        )["if-none-match"@].len() > 0) || header_text(header_values(*headers)["if-none-match"@][0]) is None,
{
    match headers.get(axum::http::header::IF_NONE_MATCH) {
        Some(value) => value.to_str().ok(),
        None => None,
    }
}

/// True when the client already holds this exact content, per
/// `If-None-Match`: the first value of that header, read as text, is `*` or
/// lists this tag (see [`if_none_match_covers`]).
/// @param headers - the request headers
/// @param etag - the tag for the content being served
pub fn is_unmodified(headers: &HeaderMap, etag: &str) -> (res: bool)
    ensures
        res == if_none_match_covers_spec(first_header_text(*headers, "if-none-match"@), etag@),
{
    let value = if_none_match_value(headers);
    if_none_match_covers(value, etag)
}

/// Rejects a content hash that is not a plain 64-character hex sha256, with a
/// 400 rather than letting it reach a filesystem path.
/// @param sha256 - the client-supplied content hash
pub fn require_content_hash(sha256: &str) -> (res: Result<(), ApiError>)
    ensures
        res is Ok <==> crate::storage::valid_content_hash_spec(sha256.spec_bytes()),
        res matches Err(e) ==> e is BadRequest,
{
    if crate::storage::is_valid_content_hash(sha256) {
        return Ok(());
    }
    Err(ApiError::BadRequest(String::from_str("sha256 must be 64 hex characters")))
}

/// The page size a listing uses: the caller's `limit` (or the default when it
/// gives none), clamped to `1..=max`.
/// @param requested - the caller's `limit`, if any
/// @param default - the configured default page size
/// @param max - the configured cap on a page
pub fn page_limit(requested: Option<usize>, default: usize, max: usize) -> (res: usize)
    requires
        1 <= max,
    ensures
        ({
            let want = match requested {
                Some(l) => l,
                None => default,
            };
            res == if want < 1 {
                1
            } else if want > max {
                max
            } else {
                want
            }
        }),
{
    let want = match requested {
        Some(l) => l,
        None => default,
    };
    if want < 1 {
        1
    } else if want > max {
        max
    } else {
        want
    }
}

/// `item` is the listing entry for `r`: the record's own fields, the content
/// hash as the id, always thumbnailable (the server renders every format),
/// displayable as-is exactly when a browser decodes the format, and the MIME
/// type the bytes are served as.
pub open spec fn lists(item: MediaListItem, r: MediaRecord) -> bool {
    &&& item.id@ == r.sha256@
    &&& item.asset_id@ == r.asset_id@
    &&& item.filename@ == r.filename@
    &&& item.content_type@ == r.content_type@
    &&& item.media_type@ == r.media_type@
    &&& item.created_at@ == r.created_at@
    &&& item.size == r.size
    &&& item.rel_path@ == r.rel_path@
    &&& item.thumbnailable
    &&& item.browser_displayable == (decodable_image_type(lowercase(r.content_type@)) || decodable_image_name(
        lowercase(r.filename@),
    ))
    &&& item.served_content_type@ == served_content_type_spec(r.content_type@)
}

/// The listing entry for one record.
/// @param r - the stored record
pub fn media_list_item(r: &MediaRecord) -> (item: MediaListItem)
    ensures
        lists(item, *r),
{
    MediaListItem {
        id: r.sha256.clone(),
        asset_id: r.asset_id.clone(),
        filename: r.filename.clone(),
        content_type: r.content_type.clone(),
        media_type: r.media_type.clone(),
        created_at: r.created_at.clone(),
        size: r.size,
        rel_path: r.rel_path.clone(),
        thumbnailable: true,
        browser_displayable: is_browser_displayable(r.content_type.as_str(), r.filename.as_str()),
        served_content_type: served_content_type(r),
    }
}

/// One page of the library for the web gallery, newest first.
///
/// Paged rather than whole-library: callers walk the library with
/// `offset`/`limit` and stop when `offset + items.len() >= count`. `count` is
/// the size of the whole library, not of the page.
/// @param storage - the media index
/// @param query - the caller's `offset` (default 0) and `limit`
/// @param default_page_size - page size when the caller gives none
/// @param max_page_size - cap on a page
pub fn media_page(storage: &Storage, query: &PageQuery, default_page_size: usize, max_page_size: usize) -> (res:
    MediaListResponse)
    requires
        1 <= max_page_size,
    ensures
        ({
            let want = match query.limit {
                Some(l) => l,
                None => default_page_size,
            };
            res.limit == if want < 1 {
                1
            } else if want > max_page_size {
                max_page_size
            } else {
                want
            }
        }),
        res.offset == match query.offset {
            Some(o) => o,
            None => 0,
        },
        res.count == storage@.len(),
        ({
            let page = page_of(newest_first_order(storage@), res.offset as nat, res.limit as nat);
            &&& res.items@.len() == page.len()
            &&& forall|i: int| 0 <= i < page.len() ==> lists(#[trigger] res.items@[i], page[i])
        }),
{
    let limit = page_limit(query.limit, default_page_size, max_page_size);
    let offset = match query.offset {
        Some(o) => o,
        None => 0,
    };
    let (records, count) = storage.records_page(offset, limit);
    let mut items: Vec<MediaListItem> = Vec::new();
    let mut i: usize = 0;
    while i < records.len()
        invariant
            i <= records@.len(),
            items@.len() == i,
            forall|k: int| 0 <= k < i ==> lists(#[trigger] items@[k], records@[k]),
        decreases records.len() - i,
    {
        items.push(media_list_item(&records[i]));
        i += 1;
    }
    MediaListResponse { items, count, offset, limit }
}

/// The integrity check on an upload: a declared hash, when the client sent
/// one, must equal the hash of the bytes received.
/// @param declared - the client's `sha256` (empty when it sent none)
/// @param actual - the hash of the received bytes
pub fn check_declared_hash(declared: &str, actual: &str) -> (res: Result<(), ApiError>)
    ensures
        res is Err <==> (declared@.len() > 0 && declared@ != actual@),
        res matches Err(e) ==> e is BadRequest,
{
    if declared.unicode_len() > 0 && !crate::text::str_eq(declared, actual) {
        return Err(ApiError::BadRequest(String::from_str("sha256 mismatch between metadata and file")));
    }
    Ok(())
}

/// Which upload part a size check is about.
#[derive(Debug, Clone, Copy, PartialEq, Eq, Structural)]
pub enum UploadPart {
    /// A whole file sent in one request.
    File,
    /// One chunk of a chunked upload.
    Chunk,
}

/// Refuses a part larger than the configured cap.
/// @param len - the part's size in bytes
/// @param max - the configured cap
/// @param part - a whole file or one chunk, for the message
pub fn check_upload_size(len: usize, max: usize, part: UploadPart) -> (res: Result<(), ApiError>)
    ensures
        res is Err <==> len > max,
        res matches Err(e) ==> e is BadRequest,
{
    if len > max {
        return match part {
            UploadPart::File => Err(ApiError::BadRequest(String::from_str("file exceeds max upload size"))),
            UploadPart::Chunk => Err(ApiError::BadRequest(String::from_str("chunk exceeds max upload size"))),
        };
    }
    Ok(())
}

/// The reply to a stored upload: the content hash is the id, the bytes are
/// stored, and `duplicate` says whether this asset had already been recorded
/// with the same content.
/// @param record - the resulting record
/// @param duplicate - whether the upload was a duplicate
pub fn upload_response(record: &MediaRecord, duplicate: bool) -> (res: UploadResponse)
    ensures
        res.id@ == record.sha256@,
        res.sha256@ == record.sha256@,
        res.stored,
        res.duplicate == duplicate,
{
    UploadResponse { id: record.sha256.clone(), sha256: record.sha256.clone(), stored: true, duplicate }
}

/// A client-supplied thumbnail is accepted only for a stored item and only
/// when it has bytes.
/// @param storage - the media index
/// @param id - the content hash the thumbnail is for
/// @param body_len - the thumbnail's size in bytes
pub fn check_thumbnail_upload(storage: &Storage, id: &str, body_len: usize) -> (res: Result<(), ApiError>)
    ensures
        res is Ok <==> ((exists|i: int| 0 <= i < storage@.len() && (#[trigger] storage@[i]).sha256@ == id@) && body_len
            > 0),
        res matches Err(e) ==> e is BadRequest,
{
    if storage.get_by_id(id).is_none() {
        return Err(ApiError::BadRequest(String::from_str("no such media id")));
    }
    if body_len == 0 {
        return Err(ApiError::BadRequest(String::from_str("empty thumbnail")));
    }
    Ok(())
}

/// How a request for a stored file is answered.
#[derive(Debug)]
pub enum MediaReply {
    /// 304: the client already holds this exact content.
    NotModified,
    /// 416, with `Content-Range: bytes */<total>`.
    Unsatisfiable { content_range: String },
    /// 200 with the whole file.
    Whole { length: u64 },
    /// 206 with `length` bytes from `start`, and the `Content-Range` header.
    Partial { start: u64, length: u64, content_range: String },
}

/// `bytes <start>-<end>/<total>`.
pub open spec fn content_range_spec(start: u64, end: u64, total: u64) -> Seq<char> {
    "bytes "@ + decimal(start as nat) + seq!['-'] + decimal(end as nat) + seq!['/'] + decimal(total as nat)
}

/// `bytes */<total>`.
pub open spec fn unsatisfied_range_spec(total: u64) -> Seq<char> {
    "bytes */"@ + decimal(total as nat)
}

/// Decides how to answer a request for a file of `total` bytes.
///
/// A conditional request is answered 304 only when no range is asked for; a
/// well-formed range outside the file is refused with 416 rather than
/// answered with the whole file; a satisfiable range gets its bytes (206);
/// anything else gets the whole file.
/// @param range_present - whether a `Range` header was sent at all
/// @param range_value - its text, when it is readable as text
/// @param unmodified - whether `If-None-Match` covers this content's tag
/// @param total - the file's size in bytes
pub fn media_reply(range_present: bool, range_value: Option<&str>, unmodified: bool, total: u64) -> (res: MediaReply)
    ensures
        !range_present && unmodified ==> res is NotModified,
        !(!range_present && unmodified) ==> {
            let r = match range_value {
                Some(v) => range_spec(v@, total),
                None => RangeRequest::Absent,
            };
            match r {
                RangeRequest::Absent => res == MediaReply::Whole { length: total },
                RangeRequest::Unsatisfiable => res matches MediaReply::Unsatisfiable { content_range } && content_range@
                    == unsatisfied_range_spec(total),
                RangeRequest::Satisfiable { start, end } => res matches MediaReply::Partial {
                    start: s,
                    length,
                    content_range,
                } && s == start && length == end - start + 1 && content_range@ == content_range_spec(start, end, total),
            }
        },
        res matches MediaReply::Partial { start, length, .. } ==> 1 <= length && start + length <= total,
{
    if !range_present && unmodified {
        return MediaReply::NotModified;
    }
    let range = match range_value {
        Some(v) => parse_range(v, total),
        None => RangeRequest::Absent,
    };
    match range {
        RangeRequest::Absent => MediaReply::Whole { length: total },
        RangeRequest::Unsatisfiable => {
            let mut cr = String::new();
            cr.append("bytes */");
            push_chars(&mut cr, &decimal_chars(total));
            MediaReply::Unsatisfiable { content_range: cr }
        },
        RangeRequest::Satisfiable { start, end } => {
            let mut cr = String::new();
            cr.append("bytes ");
            push_chars(&mut cr, &decimal_chars(start));
            string_push(&mut cr, '-');
            push_chars(&mut cr, &decimal_chars(end));
            string_push(&mut cr, '/');
            push_chars(&mut cr, &decimal_chars(total));
            assert(cr@ =~= content_range_spec(start, end, total));
            MediaReply::Partial { start, length: end - start + 1, content_range: cr }
        },
    }
}

/// Each rendition of the same content carries its own tag, so a cache can
/// never serve one rendition (a thumbnail) in place of another (the original).
pub proof fn lemma_rendition_tags_differ(sha256: Seq<char>, a: Seq<char>, b: Seq<char>)
    requires
        a != b,
    ensures
        etag_spec(sha256, a) != etag_spec(sha256, b),
{
    let ta = etag_spec(sha256, a);
    let tb = etag_spec(sha256, b);
    if ta == tb {
        let lo: int = sha256.len() as int + 2;
        assert(ta.subrange(lo, ta.len() - 1) =~= a);
        assert(tb.subrange(lo, tb.len() - 1) =~= b);
    }
}

/// A value starting and ending with a quote has no surrounding whitespace.
proof fn lemma_quoted_is_trimmed(t: Seq<char>)
    requires
        t.len() >= 2,
        t[0] == '"',
        t.last() == '"',
    ensures
        trim(t) == t,
{
    assert(!crate::text::is_ws('"'));
    assert(crate::text::ws_prefix_len(t) == 0);
    assert(crate::text::trim_start(t) =~= t);
    assert(crate::text::ws_suffix_len(t) == 0);
    assert(crate::text::trim_end(t) =~= t);
}

/// A client presenting the very tag it was served, alone or at the end of a
/// list of other tags, is answered from its own cache (when neither the
/// content hash nor the rendition name holds a comma).
pub proof fn lemma_own_tag_is_unmodified(sha256: Seq<char>, variant: Seq<char>, others: Seq<char>)
    requires
        !sha256.contains(','),
        !variant.contains(','),
    ensures
        if_none_match_covers_spec(Some(etag_spec(sha256, variant)), etag_spec(sha256, variant)),
        if_none_match_covers_spec(
            Some(others + seq![','] + etag_spec(sha256, variant)),
            etag_spec(sha256, variant),
        ),
{
    let t = etag_spec(sha256, variant);
    let ls = sha256.len() as int;
    assert forall|k: int| 0 <= k < t.len() implies t[k] != ',' by {
        if 1 <= k < 1 + ls {
            assert(t[k] == sha256[k - 1]);
            if t[k] == ',' {
                assert(sha256.contains(','));
            }
        } else if 2 + ls <= k < t.len() - 1 {
            assert(t[k] == variant[k - 2 - ls]);
            if t[k] == ',' {
                assert(variant.contains(','));
            }
        }
    }
    lemma_quoted_is_trimmed(t);
    assert(t.subrange(0, t.len() as int) =~= t);
    assert(is_list_element(t, 0, t.len() as int));
    assert(list_contains_tag(t, t));
    let v = others + seq![','] + t;
    let a: int = others.len() as int + 1;
    assert(v.subrange(a, v.len() as int) =~= t);
    assert forall|k: int| a <= k < v.len() implies v[k] != ',' by {
        assert(v[k] == t[k - a]);
    }
    assert(is_list_element(v, a, v.len() as int));
    assert(list_contains_tag(v, t));
}

/// The verdict on one item a client asks the server to confirm it holds.
#[derive(Debug, Clone, Copy, PartialEq, Eq, Structural)]
pub enum VerifyOutcome {
    /// The server holds exactly this content.
    Verified,
    /// No stored item has this content hash (or, deeply checked, its bytes are unreadable).
    NotFound,
    /// The stored item has a different size.
    SizeMismatch,
    /// The bytes on disk no longer hash to the content hash.
    HashMismatch,
}

/// The text a verdict is reported as.
pub open spec fn reason_spec(o: VerifyOutcome) -> Seq<char> {
    match o {
        VerifyOutcome::Verified => "ok"@,
        VerifyOutcome::NotFound => "not_found"@,
        VerifyOutcome::SizeMismatch => "size_mismatch"@,
        VerifyOutcome::HashMismatch => "hash_mismatch"@,
    }
}

impl VerifyOutcome {
    /// The reason reported for this verdict.
    pub fn reason(self) -> (res: &'static str)
        ensures
            res@ == reason_spec(self),
    {
        match self {
            VerifyOutcome::Verified => "ok",
            VerifyOutcome::NotFound => "not_found",
            VerifyOutcome::SizeMismatch => "size_mismatch",
            VerifyOutcome::HashMismatch => "hash_mismatch",
        }
    }

    /// Only an exact, full match is verified.
    pub fn verified(self) -> (res: bool)
        ensures
            res == (self == VerifyOutcome::Verified),
    {
        match self {
            VerifyOutcome::Verified => true,
            _ => false,
        }
    }
}

/// Confirms an item only when the server holds it in full: a stored record
/// with the content hash, of the declared size, and, when checked deeply,
/// bytes on disk that still hash to it.
/// @param stored - the stored record with this content hash, if any
/// @param declared_size - the size the client holds
/// @param deep - whether to re-hash the bytes on disk
/// @param on_disk_hash - the hash of the stored bytes, when they could be read
pub fn verify_item(stored: Option<&MediaRecord>, declared_size: u64, deep: bool, on_disk_hash: Option<&str>) -> (res:
    VerifyOutcome)
    ensures
        res == match stored {
            None => VerifyOutcome::NotFound,
            Some(r) => if r.size != declared_size {
                VerifyOutcome::SizeMismatch
            } else if !deep {
                VerifyOutcome::Verified
            } else {
                match on_disk_hash {
                    None => VerifyOutcome::NotFound,
                    Some(h) => if h@ == r.sha256@ {
                        VerifyOutcome::Verified
                    } else {
                        VerifyOutcome::HashMismatch
                    },
                }
            },
        },
{
    let r = match stored {
        None => return VerifyOutcome::NotFound,
        Some(r) => r,
    };
    if r.size != declared_size {
        return VerifyOutcome::SizeMismatch;
    }
    if !deep {
        return VerifyOutcome::Verified;
    }
    match on_disk_hash {
        None => VerifyOutcome::NotFound,
        Some(h) => if crate::text::str_eq(h, r.sha256.as_str()) {
            VerifyOutcome::Verified
        } else {
            VerifyOutcome::HashMismatch
        },
    }
}

} // verus!
