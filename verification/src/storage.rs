//! The media index and the filing rules of the date-organized library.

use vstd::prelude::*;
use vstd::arithmetic::div_mod::{lemma_fundamental_div_mod, lemma_fundamental_div_mod_converse};
use vstd::string::StringSliceAdditionalSpecFns;

use chrono::Datelike;
use chrono::TimeZone;
use sha2::Digest;

use crate::error::ApiError;
use crate::models::{MediaRecord, StorageRoot};
use crate::order::{is_newest_first, newest_first_order, sort_newest_first, Chronological};
use crate::text::{
    chars_eq, chars_ends_with, chars_lt, decimal, decimal_chars, push_chars, seq_lt, slice_chars,
    str_chars, str_eq, string_push, trim, trim_chars, zero_pad, zero_pad_chars,
};

verus! {

broadcast use vstd::seq_lib::group_to_multiset_ensures;

/// An ASCII hexadecimal digit, either case.
pub open spec fn is_hex_byte(b: u8) -> bool {
    (0x30 <= b <= 0x39) || (0x41 <= b <= 0x46) || (0x61 <= b <= 0x66)
}

/// A plain 64-character hex sha256, as bytes.
pub open spec fn valid_content_hash_spec(bytes: Seq<u8>) -> bool {
    bytes.len() == 64 && forall|i: int| 0 <= i < bytes.len() ==> is_hex_byte(#[trigger] bytes[i])
}

/// Reports whether a client-supplied content hash is a plain 64-character hex
/// sha256. Values that fail this are never used to build a filesystem path.
/// @param sha256 - the value the client sent
pub fn is_valid_content_hash(sha256: &str) -> (res: bool)
    ensures
        res == valid_content_hash_spec(sha256.spec_bytes()),
{
    let bytes = sha256.as_bytes();
    if bytes.len() != 64 {
        return false;
    }
    let mut i: usize = 0;
    while i < bytes.len()
        invariant
            i <= bytes@.len(),
            bytes@ == sha256.spec_bytes(),
            forall|k: int| 0 <= k < i ==> is_hex_byte(#[trigger] bytes@[k]),
        decreases bytes@.len() - i,
    {
        let b = bytes[i];
        if !((0x30 <= b && b <= 0x39) || (0x41 <= b && b <= 0x46) || (0x61 <= b && b <= 0x66)) {
            assert(!is_hex_byte(bytes@[i as int]));
            return false;
        }
        i += 1;
    }
    true
}


/// What `str::to_lowercase` returns for a string (Unicode lowercase mapping).
pub uninterp spec fn lowercase(s: Seq<char>) -> Seq<char>;

/// `str::to_lowercase`: the string with every character mapped to its
/// Unicode lowercase form. The mapping itself is named, not restated.
#[verifier::external_body]
pub(crate) fn to_lowercase(s: &str) -> (res: String)
    ensures
        res@ == lowercase(s@),
{
    s.to_lowercase()
}

/// The MIME types the `image` crate decodes.
pub open spec fn decodable_image_type(ct: Seq<char>) -> bool {
    ||| ct == "image/jpeg"@
    ||| ct == "image/png"@
    ||| ct == "image/gif"@
    ||| ct == "image/webp"@
    ||| ct == "image/bmp"@
    ||| ct == "image/tiff"@
}

/// `name` ends with `ext`.
pub open spec fn ends_with(name: Seq<char>, ext: Seq<char>) -> bool {
    ext.len() <= name.len() && name.skip(name.len() - ext.len()) == ext
}

/// The file extensions the `image` crate decodes.
pub open spec fn decodable_image_name(name: Seq<char>) -> bool {
    ||| ends_with(name, ".jpg"@)
    ||| ends_with(name, ".jpeg"@)
    ||| ends_with(name, ".png"@)
    ||| ends_with(name, ".gif"@)
    ||| ends_with(name, ".webp"@)
    ||| ends_with(name, ".bmp"@)
    ||| ends_with(name, ".tif"@)
    ||| ends_with(name, ".tiff"@)
}

fn str_ends_with(name: &Vec<char>, ext: &str) -> (res: bool)
    ensures
        res == ends_with(name@, ext@),
{
    chars_ends_with(name, &str_chars(ext))
}

/// Reports whether an item can be decoded into an image thumbnail by the
/// pure-Rust `image` crate (JPEG/PNG/GIF/WebP/BMP/TIFF), by its declared
/// type or, failing that, its file extension (both compared in lowercase).
/// HEIC and videos are handled via ffmpeg instead.
pub fn is_thumbnailable(content_type: &str, filename: &str) -> (res: bool)
    ensures
        res == (decodable_image_type(lowercase(content_type@)) || decodable_image_name(
            lowercase(filename@),
        )),
{
    let ct = to_lowercase(content_type);
    let ct = ct.as_str();
    if str_eq(ct, "image/jpeg") || str_eq(ct, "image/png") || str_eq(ct, "image/gif") || str_eq(
        ct,
        "image/webp",
    ) || str_eq(ct, "image/bmp") || str_eq(ct, "image/tiff") {
        return true;
    }
    let name = to_lowercase(filename);
    let name = str_chars(name.as_str());
    str_ends_with(&name, ".jpg") || str_ends_with(&name, ".jpeg") || str_ends_with(&name, ".png")
        || str_ends_with(&name, ".gif") || str_ends_with(&name, ".webp") || str_ends_with(
        &name,
        ".bmp",
    ) || str_ends_with(&name, ".tif") || str_ends_with(&name, ".tiff")
}

/// Whether a browser can show the original bytes directly in an `<img>`:
/// the same still formats the server decodes itself. HEIC and video are not,
/// so the gallery asks for `/preview` instead.
pub fn is_browser_displayable(content_type: &str, filename: &str) -> (res: bool)
    ensures
        res == (decodable_image_type(lowercase(content_type@)) || decodable_image_name(
            lowercase(filename@),
        )),
{
    is_thumbnailable(content_type, filename)
}

/// The MIME type a record is served as: an iPhone `.MOV` arrives as
/// `video/quicktime`, which browsers refuse in `canPlayType`, so it is served
/// as `video/mp4` (same ISO-BMFF container, bytes untouched); anything else is
/// served as uploaded.
pub open spec fn served_content_type_spec(content_type: Seq<char>) -> Seq<char> {
    if lowercase(content_type) == "video/quicktime"@ {
        "video/mp4"@
    } else {
        content_type
    }
}

/// The MIME type `/media/:id` serves a record's bytes as.
/// @param record - the stored record
pub fn served_content_type(record: &MediaRecord) -> (res: String)
    ensures
        res@ == served_content_type_spec(record.content_type@),
{
    let ct = to_lowercase(record.content_type.as_str());
    if str_eq(ct.as_str(), "video/quicktime") {
        String::from_str("video/mp4")
    } else {
        record.content_type.clone()
    }
}

/// What SHA-256 gives for a byte string.
pub uninterp spec fn sha256_spec(data: Seq<u8>) -> Seq<u8>;

/// `sha2::Sha256::digest`: the SHA-256 digest of the bytes, 32 bytes long.
#[verifier::external_body]
fn sha256_digest(data: &[u8]) -> (res: Vec<u8>)
    ensures
        res@ == sha256_spec(data@),
        res@.len() == 32,
{
    sha2::Sha256::digest(data).to_vec()
}

/// A lowercase hexadecimal digit for `n` in `0..16`.
pub open spec fn hex_digit(n: int) -> char {
    if n < 10 {
        (48 + n) as char
    } else {
        (87 + n) as char
    }
}

/// Lowercase hex of a byte string, two digits per byte, high nibble first.
pub open spec fn hex_spec(b: Seq<u8>) -> Seq<char>
    decreases b.len(),
{
    if b.len() == 0 {
        Seq::empty()
    } else {
        seq![hex_digit((b[0] / 16) as int), hex_digit((b[0] % 16) as int)] + hex_spec(b.drop_first())
    }
}

/// `hex::encode`: lowercase hex of the bytes, two digits per byte.
#[verifier::external_body]
pub(crate) fn hex_encode(b: &[u8]) -> (res: String)
    ensures
        res@ == hex_spec(b@),
{
    hex::encode(b)
}

/// A lowercase hexadecimal digit character.
pub open spec fn is_lower_hex_char(c: char) -> bool {
    ('0' <= c <= '9') || ('a' <= c <= 'f')
}

/// Hex is two lowercase digits per byte.
pub proof fn lemma_hex_shape(b: Seq<u8>)
    ensures
        hex_spec(b).len() == 2 * b.len(),
        forall|i: int| 0 <= i < hex_spec(b).len() ==> is_lower_hex_char(#[trigger] hex_spec(b)[i]),
    decreases b.len(),
{
    if b.len() > 0 {
        lemma_hex_shape(b.drop_first());
        let h = hex_spec(b);
        let t = hex_spec(b.drop_first());
        assert forall|i: int| 0 <= i < h.len() implies is_lower_hex_char(#[trigger] h[i]) by {
            if i >= 2 {
                assert(h[i] == t[i - 2]);
            }
        }
    }
}

/// The content address of a byte string: the lowercase hex of its SHA-256.
pub open spec fn content_hash_spec(data: Seq<u8>) -> Seq<char> {
    hex_spec(sha256_spec(data))
}

/// Computes the content address of uploaded bytes: the 64-character
/// lowercase hex SHA-256 digest.
/// @param bytes - the file contents
pub fn content_hash(bytes: &[u8]) -> (res: String)
    ensures
        res@ == content_hash_spec(bytes@),
        res@.len() == 64,
        forall|i: int| 0 <= i < 64 ==> is_lower_hex_char(#[trigger] res@[i]),
{
    let digest = sha256_digest(bytes);
    let res = hex_encode(digest.as_slice());
    proof {
        lemma_hex_shape(digest@);
    }
    res
}

/// A running SHA-256 over bytes fed to it in pieces, so a large upload can be
/// hashed chunk by chunk without being held whole. The `sha2` state is kept
/// in a private field, out of Verus's sight: `sha2::Sha256` is an alias of a
/// deeply generic wrapper that Verus does not accept as a declared type.
#[verifier::external_body]
pub struct ContentHasher {
    inner: sha2::Sha256,
}

/// What a hasher holds: every byte fed to it so far, in order.
pub uninterp spec fn hasher_input(h: ContentHasher) -> Seq<u8>;

/// `sha2::Sha256::new()`: a hasher that has been fed nothing.
#[verifier::external_body]
fn hasher_new() -> (h: ContentHasher)
    ensures
        hasher_input(h) == Seq::<u8>::empty(),
{
    ContentHasher { inner: sha2::Sha256::new() }
}

/// `Digest::update`: feeds the bytes after everything fed before.
#[verifier::external_body]
fn hasher_update(h: &mut ContentHasher, data: &[u8])
    ensures
        hasher_input(*final(h)) == hasher_input(*old(h)) + data@,
{
    h.inner.update(data);
}

/// `Digest::finalize`: the SHA-256 digest of everything fed, 32 bytes long.
#[verifier::external_body]
fn hasher_finish(h: ContentHasher) -> (d: Vec<u8>)
    ensures
        d@ == sha256_spec(hasher_input(h)),
        d@.len() == 32,
{
    h.inner.finalize().to_vec()
}

impl View for ContentHasher {
    type V = Seq<u8>;

    open spec fn view(&self) -> Seq<u8> {
        hasher_input(*self)
    }
}

impl ContentHasher {
    /// A hasher that has been fed nothing.
    pub fn new() -> (h: ContentHasher)
        ensures
            h@ == Seq::<u8>::empty(),
    {
        hasher_new()
    }

    /// Feeds the next piece of the content.
    /// @param data - the bytes that follow everything fed so far
    pub fn update(&mut self, data: &[u8])
        ensures
            final(self)@ == old(self)@ + data@,
    {
        hasher_update(self, data);
    }

    /// The content address of everything fed: its lowercase hex SHA-256, as
    /// `content_hash` gives for the same bytes.
    pub fn finish(self) -> (res: String)
        ensures
            res@ == content_hash_spec(self@),
    {
        let digest = hasher_finish(self);
        hex_encode(digest.as_slice())
    }
}

/// Checks assembled content against the hash the client declared: Ok
/// exactly when everything fed hashes to `expected_sha`, else an error, so a
/// corrupt or incomplete upload is refused before it is committed.
/// @param hasher - the hasher fed the assembled content, chunk by chunk
/// @param expected_sha - the declared content hash
pub fn check_assembled(hasher: ContentHasher, expected_sha: &str) -> (res: Result<(), ApiError>)
    ensures
        res is Ok <==> content_hash_spec(hasher@) == expected_sha@,
        res matches Err(e) ==> e is Internal,
{
    let actual = hasher.finish();
    if str_eq(actual.as_str(), expected_sha) {
        Ok(())
    } else {
        Err(ApiError::Internal(String::from_str("assembled sha256 does not match declared hash")))
    }
}

impl Chronological for MediaRecord {
    open spec fn time_key(&self) -> Seq<char> {
        self.created_at@
    }

    open spec fn tie_key(&self) -> int {
        0
    }

    fn older_than(&self, other: &Self) -> (res: bool) {
        let a = str_chars(self.created_at.as_str());
        let b = str_chars(other.created_at.as_str());
        chars_lt(&a, &b)
    }
}

/// No two records share an asset id.
pub open spec fn unique_assets(s: Seq<MediaRecord>) -> bool {
    forall|i: int, j: int|
        0 <= i < j < s.len() ==> (#[trigger] s[i]).asset_id@ != (#[trigger] s[j]).asset_id@
}

/// `i` is the first record whose content hash is `sha`.
pub open spec fn is_first_with_content(s: Seq<MediaRecord>, sha: Seq<char>, i: int) -> bool {
    0 <= i < s.len() && s[i].sha256@ == sha && forall|k: int| 0 <= k < i ==> (#[trigger] s[k]).sha256@ != sha
}

/// The in-memory metadata index: one record per asset id. The caller keeps
/// it behind a lock with the storage roots and persists it on every change.
pub struct Storage {
    /// Suffix appended to each month folder (`202608-phone-sync`).
    folder_suffix: String,
    /// One record per asset id, in no particular order.
    records: Vec<MediaRecord>,
}

impl View for Storage {
    type V = Seq<MediaRecord>;

    closed spec fn view(&self) -> Seq<MediaRecord> {
        self.records@
    }
}

impl Storage {
    /// The index holds one record per asset id.
    pub closed spec fn wf(&self) -> bool {
        unique_assets(self.records@)
    }

    /// The month-folder suffix this library files under.
    pub closed spec fn suffix(&self) -> Seq<char> {
        self.folder_suffix@
    }

    /// An empty index for a library filed under `folder_suffix`.
    /// @param folder_suffix - suffix appended to each month folder name
    pub fn new(folder_suffix: String) -> (s: Storage)
        ensures
            s.wf(),
            s@ == Seq::<MediaRecord>::empty(),
            s.suffix() == folder_suffix@,
    {
        Storage { folder_suffix, records: Vec::new() }
    }

    /// The month-folder suffix this library files under.
    pub fn folder_suffix(&self) -> (res: &str)
        ensures
            res@ == self.suffix(),
    {
        self.folder_suffix.as_str()
    }

    /// Returns the asset ids already stored, for the client manifest.
    pub fn known_asset_ids(&self) -> (res: Vec<String>)
        ensures
            res@.len() == self@.len(),
            forall|i: int| 0 <= i < res@.len() ==> #[trigger] res@[i] == self@[i].asset_id,
    {
        let mut out: Vec<String> = Vec::new();
        let mut i: usize = 0;
        while i < self.records.len()
            invariant
                i <= self.records@.len(),
                out@.len() == i,
                forall|k: int| 0 <= k < i ==> #[trigger] out@[k] == self.records@[k].asset_id,
            decreases self.records.len() - i,
        {
            out.push(self.records[i].asset_id.clone());
            i += 1;
        }
        out
    }

    /// Fetches a stored record by its sha256 id, if present.
    pub fn get_by_id(&self, id: &str) -> (res: Option<MediaRecord>)
        ensures
            match res {
                Some(r) => exists|i: int| is_first_with_content(self@, id@, i) && r == self@[i],
                None => forall|i: int| 0 <= i < self@.len() ==> (#[trigger] self@[i]).sha256@ != id@,
            },
    {
        let mut i: usize = 0;
        while i < self.records.len()
            invariant
                i <= self.records@.len(),
                forall|k: int| 0 <= k < i ==> (#[trigger] self.records@[k]).sha256@ != id@,
            decreases self.records.len() - i,
        {
            if str_eq(self.records[i].sha256.as_str(), id) {
                let r = self.records[i].duplicate();
                assert(is_first_with_content(self@, id@, i as int));
                return Some(r);
            }
            i += 1;
        }
        None
    }

    /// Returns all stored records, newest first (by capture time), records
    /// with the same capture time in index order.
    pub fn all_records(&self) -> (res: Vec<MediaRecord>)
        ensures
            res@ == newest_first_order(self@),
            is_newest_first(res@),
            res@.to_multiset() == self@.to_multiset(),
    {
        let mut out: Vec<MediaRecord> = Vec::new();
        let mut i: usize = 0;
        while i < self.records.len()
            invariant
                i <= self.records@.len(),
                out@ == self.records@.take(i as int),
            decreases self.records.len() - i,
        {
            out.push(self.records[i].duplicate());
            i += 1;
            assert(out@ =~= self.records@.take(i as int));
        }
        assert(self.records@.take(i as int) =~= self.records@);
        sort_newest_first(&mut out);
        out
    }

    /// One page of the newest-first listing and the size of the whole library.
    /// @param offset - how many records to skip
    /// @param limit - the most records to return
    pub fn records_page(&self, offset: usize, limit: usize) -> (res: (Vec<MediaRecord>, usize))
        ensures
            res.1 == self@.len(),
            res.0@ == page_of(newest_first_order(self@), offset as nat, limit as nat),
    {
        let all = self.all_records();
        proof {
            assert(all@.len() == self@.len()) by {
                assert(all@.to_multiset().len() == self@.to_multiset().len());
            }
        }
        let n = all.len();
        let start = if offset < n {
            offset
        } else {
            n
        };
        let end = if offset < n && n - offset > limit {
            offset + limit
        } else {
            n
        };
        let mut out: Vec<MediaRecord> = Vec::new();
        let mut i = start;
        while i < end
            invariant
                start <= i <= end <= n == all@.len(),
                out@ == all@.subrange(start as int, i as int),
            decreases end - i,
        {
            out.push(all[i].duplicate());
            i += 1;
            assert(out@ =~= all@.subrange(start as int, i as int));
        }
        assert(out@ =~= page_of(all@, offset as nat, limit as nat));
        (out, n)
    }

    /// Inserts or replaces the record for its asset id, returning whether the
    /// asset was already indexed.
    /// @param record - the record to index
    pub fn index_record(&mut self, record: MediaRecord) -> (already: bool)
        requires
            old(self).wf(),
        ensures
            final(self).wf(),
            final(self).suffix() == old(self).suffix(),
            already == exists|i: int| 0 <= i < old(self)@.len() && (#[trigger] old(self)@[i]).asset_id@ == record.asset_id@,
            already ==> exists|i: int|
                0 <= i < old(self)@.len() && (#[trigger] old(self)@[i]).asset_id@ == record.asset_id@
                    && final(self)@ == old(self)@.update(i, record),
            !already ==> final(self)@ == old(self)@.push(record),
    {
        let mut i: usize = 0;
        while i < self.records.len()
            invariant
                i <= self.records@.len(),
                self.records@ == old(self).records@,
                self.folder_suffix == old(self).folder_suffix,
                unique_assets(self.records@),
                forall|k: int| 0 <= k < i ==> (#[trigger] self.records@[k]).asset_id@ != record.asset_id@,
            decreases self.records.len() - i,
        {
            if str_eq(self.records[i].asset_id.as_str(), record.asset_id.as_str()) {
                let ghost before = self.records@;
                assert(old(self)@[i as int].asset_id@ == record.asset_id@);
                self.records.set(i, record);
                proof {
                    let after = self.records@;
                    assert forall|a: int, b: int| 0 <= a < b < after.len() implies (
                    #[trigger] after[a]).asset_id@ != (#[trigger] after[b]).asset_id@ by {
                        if a == i {
                            assert(before[i as int].asset_id@ == after[a].asset_id@);
                            assert(before[b] == after[b]);
                        } else if b == i {
                            assert(before[i as int].asset_id@ == after[b].asset_id@);
                            assert(before[a] == after[a]);
                        } else {
                            assert(before[a] == after[a] && before[b] == after[b]);
                        }
                    }
                }
                return true;
            }
            i += 1;
        }
        let ghost before = self.records@;
        self.records.push(record);
        proof {
            let after = self.records@;
            assert forall|a: int, b: int| 0 <= a < b < after.len() implies (
            #[trigger] after[a]).asset_id@ != (#[trigger] after[b]).asset_id@ by {
                if b == before.len() {
                    assert(after[a] == before[a]);
                } else {
                    assert(after[a] == before[a] && after[b] == before[b]);
                }
            }
        }
        false
    }

    /// Records an upload whose record has been built (and whose bytes are on
    /// disk), returning whether it was a duplicate: the content was already
    /// stored *and* this asset was already indexed.
    /// @param record - the record for the upload
    /// @param content_existed - whether the bytes were already stored before this upload
    pub fn commit_upload(&mut self, record: MediaRecord, content_existed: bool) -> (duplicate: bool)
        requires
            old(self).wf(),
        ensures
            final(self).wf(),
            final(self).suffix() == old(self).suffix(),
            duplicate == (content_existed && exists|i: int|
                0 <= i < old(self)@.len() && (#[trigger] old(self)@[i]).asset_id@ == record.asset_id@),
            (exists|i: int| 0 <= i < old(self)@.len() && (#[trigger] old(self)@[i]).asset_id@ == record.asset_id@)
                ==> exists|i: int|
                0 <= i < old(self)@.len() && (#[trigger] old(self)@[i]).asset_id@ == record.asset_id@
                    && final(self)@ == old(self)@.update(i, record),
            !(exists|i: int| 0 <= i < old(self)@.len() && (#[trigger] old(self)@[i]).asset_id@ == record.asset_id@)
                ==> final(self)@ == old(self)@.push(record),
    {
        let already = self.index_record(record);
        content_existed && already
    }
}


/// A calendar date as (year, month 1-12, day 1-31).
pub type CalendarDate = (i32, u32, u32);

/// Month and day are in their calendar ranges.
pub open spec fn is_calendar_date(d: CalendarDate) -> bool {
    1 <= d.1 <= 12 && 1 <= d.2 <= 31
}

/// The largest distance from the Unix epoch, in seconds, of an instant that
/// chrono can hold (its dates stay within years -262143..=262142).
pub const MAX_INSTANT: i64 = 0x2000_0000_0000;

/// Seconds in a calendar day.
pub const SECONDS_PER_DAY: i64 = 86400;

/// The instant, in whole seconds since 1970-01-01T00:00:00Z, of the date-time
/// that `chrono::DateTime::parse_from_rfc3339` reads from the text; `None`
/// where chrono refuses the text.
pub uninterp spec fn rfc3339_instant(s: Seq<char>) -> Option<i64>;

/// `chrono::DateTime::parse_from_rfc3339` followed by `DateTime::timestamp`.
/// The instant is named by `rfc3339_instant`; chrono's date range keeps it
/// within `MAX_INSTANT` seconds of the epoch.
#[verifier::external_body]
fn parse_rfc3339_instant(s: &str) -> (res: Option<i64>)
    ensures
        res == rfc3339_instant(s@),
        res matches Some(t) ==> -MAX_INSTANT <= t <= MAX_INSTANT,
{
    match chrono::DateTime::parse_from_rfc3339(s) {
        Ok(dt) => Some(dt.timestamp()),
        Err(_) => None,
    }
}

/// `chrono::DateTime::from_timestamp(instant, 0)` followed by
/// `chrono::Local.offset_from_utc_datetime(..).local_minus_utc()`: the
/// seconds this machine's time zone adds to UTC at the given instant, which
/// is what `DateTime::with_timezone(&Local)` applies; `None` where
/// `from_timestamp` refuses the instant. chrono's `FixedOffset` keeps the
/// offset strictly within one day. Which offset applies depends on the
/// machine's time zone and is not stated further. chrono itself panics when
/// the machine's zone data yields no offset for the instant, which rests on
/// the machine and not on the argument.
#[verifier::external_body]
fn local_offset_at(instant: i64) -> (res: Option<i32>)
    ensures
        res matches Some(offset) ==> -SECONDS_PER_DAY < offset < SECONDS_PER_DAY,
{
    match chrono::DateTime::from_timestamp(instant, 0) {
        Some(dt) => Some(chrono::Local.offset_from_utc_datetime(&dt.naive_utc()).local_minus_utc()),
        None => None,
    }
}

/// `reading` is an answer this machine's zone lookup (`local_offset_at`)
/// gives for the instant `t`.
pub closed spec fn machine_offset_reading(t: i64, reading: Option<i32>) -> bool {
    call_ensures(local_offset_at, (t,), reading)
}

/// The offset a zone-lookup answer stands for: the offset itself, or UTC for
/// an instant the lookup could not place.
pub open spec fn offset_or_utc(reading: Option<i32>) -> int {
    match reading {
        Some(o) => o as int,
        None => 0,
    }
}

/// The proleptic Gregorian date of day number `z`, counted from 1970-01-01
/// (day 0). Days are grouped in 400-year eras of 146097 days; within an era,
/// years start on 1 March, so that January and February close the year
/// before and the leap day falls last.
pub open spec fn civil_from_days(z: int) -> CalendarDate {
    let zz = z + 719468;
    let era = zz / 146097;
    let doe = zz % 146097;
    let yoe = (doe - doe / 1460 + doe / 36524 - doe / 146096) / 365;
    let doy = doe - (365 * yoe + yoe / 4 - yoe / 100);
    let mp = (5 * doy + 2) / 153;
    let d = doy - (153 * mp + 2) / 5 + 1;
    let m = if mp < 10 {
        mp + 3
    } else {
        mp - 9
    };
    let y = yoe + era * 400 + if m <= 2 {
        1int
    } else {
        0int
    };
    (y as i32, m as u32, d as u32)
}

/// The local calendar date of an instant under a UTC offset: the date of the
/// day in which `instant + offset` seconds fall.
pub open spec fn local_date_spec(instant: int, offset: int) -> CalendarDate {
    civil_from_days((instant + offset) / (SECONDS_PER_DAY as int))
}

/// Bounds of the month-and-day arithmetic within one 400-year era.
proof fn lemma_era_day_ranges(doe: u64)
    by (bit_vector)
    requires
        doe < 146097,
    ensures
        doe / 1460 <= doe,
        (doe - doe / 1460 + doe / 36524 - doe / 146096) / 365 <= 399,
        365 * ((doe - doe / 1460 + doe / 36524 - doe / 146096) / 365)
            + ((doe - doe / 1460 + doe / 36524 - doe / 146096) / 365) / 4
            - ((doe - doe / 1460 + doe / 36524 - doe / 146096) / 365) / 100 <= doe,
        doe - (365 * ((doe - doe / 1460 + doe / 36524 - doe / 146096) / 365)
            + ((doe - doe / 1460 + doe / 36524 - doe / 146096) / 365) / 4
            - ((doe - doe / 1460 + doe / 36524 - doe / 146096) / 365) / 100) <= 365,
{
}

/// Bounds of the month and day read from a day of the March-based year.
proof fn lemma_year_day_ranges(doy: u64)
    by (bit_vector)
    requires
        doy <= 365,
    ensures
        (5 * doy + 2) / 153 <= 11,
        (153 * ((5 * doy + 2) / 153) + 2) / 5 <= doy,
        doy - (153 * ((5 * doy + 2) / 153) + 2) / 5 + 1 <= 31,
{
}

/// The local calendar date of `instant` (seconds since the Unix epoch) under
/// a UTC offset of `offset` seconds.
/// @param instant - seconds since 1970-01-01T00:00:00Z
/// @param offset - seconds the local time zone adds to UTC
pub fn local_date_at(instant: i64, offset: i32) -> (res: CalendarDate)
    requires
        -MAX_INSTANT <= instant <= MAX_INSTANT,
        -SECONDS_PER_DAY < offset < SECONDS_PER_DAY,
    ensures
        res == local_date_spec(instant as int, offset as int),
        is_calendar_date(res),
{
    // Whole eras added so that every quantity below is non-negative.
    let shift_days: i64 = 146097 * 4000;
    let local: i64 = instant + offset as i64;
    let shifted: u64 = (local + 86400 * shift_days) as u64;
    let day: u64 = shifted / 86400;
    let zz: u64 = day + 719468;
    let era: u64 = zz / 146097;
    let doe: u64 = zz % 146097;
    proof {
        let li = local as int;
        let q = shifted as int / 86400;
        let r = shifted as int % 86400;
        lemma_fundamental_div_mod(shifted as int, 86400);
        lemma_fundamental_div_mod_converse(li, 86400, q - 146097 * 4000, r);
        let z = li / 86400;
        assert(zz as int == z + 719468 + 146097 * 4000);
        lemma_fundamental_div_mod(zz as int, 146097);
        lemma_fundamental_div_mod_converse(z + 719468, 146097, era as int - 4000, doe as int);
        lemma_era_day_ranges(doe);
    }
    let yoe: u64 = (doe - doe / 1460 + doe / 36524 - doe / 146096) / 365;
    let doy: u64 = doe - (365 * yoe + yoe / 4 - yoe / 100);
    proof {
        lemma_year_day_ranges(doy);
    }
    let mp: u64 = (5 * doy + 2) / 153;
    let d: u64 = doy - (153 * mp + 2) / 5 + 1;
    let m: u64 = if mp < 10 {
        mp + 3
    } else {
        mp - 9
    };
    let y: i64 = yoe as i64 + (era as i64 - 4000) * 400 + if m <= 2 {
        1i64
    } else {
        0i64
    };
    (y as i32, m as u32, d as u32)
}

/// Whatever offset within a day applies, the local day number of an instant
/// is its UTC day number or one of the two days beside it.
pub proof fn lemma_local_day_is_near_utc_day(instant: int, offset: int)
    requires
        -SECONDS_PER_DAY < offset < SECONDS_PER_DAY,
    ensures
        instant / (SECONDS_PER_DAY as int) - 1 <= (instant + offset) / (SECONDS_PER_DAY as int)
            <= instant / (SECONDS_PER_DAY as int) + 1,
{
    lemma_fundamental_div_mod(instant, 86400);
    lemma_fundamental_div_mod(instant + offset, 86400);
}

/// What `chrono::NaiveDateTime::parse_from_str(s, fmt)` gives, as the date
/// of the parsed date-time.
pub uninterp spec fn naive_datetime_date(s: Seq<char>, fmt: Seq<char>) -> Option<CalendarDate>;

/// `chrono::NaiveDateTime::parse_from_str`, reduced to its calendar date.
#[verifier::external_body]
fn parse_naive_datetime_date(s: &str, fmt: &str) -> (res: Option<CalendarDate>)
    ensures
        res == naive_datetime_date(s@, fmt@),
        res matches Some(d) ==> is_calendar_date(d),
{
    match chrono::NaiveDateTime::parse_from_str(s, fmt) {
        Ok(dt) => Some((dt.date().year(), dt.date().month(), dt.date().day())),
        Err(_) => None,
    }
}

/// What `chrono::NaiveDate::parse_from_str(s, fmt)` gives.
pub uninterp spec fn naive_date(s: Seq<char>, fmt: Seq<char>) -> Option<CalendarDate>;

/// `chrono::NaiveDate::parse_from_str`.
#[verifier::external_body]
fn parse_naive_date(s: &str, fmt: &str) -> (res: Option<CalendarDate>)
    ensures
        res == naive_date(s@, fmt@),
        res matches Some(d) ==> is_calendar_date(d),
{
    match chrono::NaiveDate::parse_from_str(s, fmt) {
        Ok(d) => Some((d.year(), d.month(), d.day())),
        Err(_) => None,
    }
}

/// `chrono::Local::now().date_naive()`: today's date on this machine.
#[verifier::external_body]
fn local_today() -> (res: CalendarDate)
    ensures
        is_calendar_date(res),
{
    let d = chrono::Local::now().date_naive();
    (d.year(), d.month(), d.day())
}

/// The date a capture time names when it is not RFC 3339: a plain
/// `YYYY-MM-DDTHH:MM:SS` or `YYYY-MM-DD HH:MM:SS`, else a bare `YYYY-MM-DD`
/// in its first ten characters.
pub open spec fn capture_date_fallback(t: Seq<char>) -> Option<CalendarDate> {
    match naive_datetime_date(t, "%Y-%m-%dT%H:%M:%S"@) {
        Some(d) => Some(d),
        None => match naive_datetime_date(t, "%Y-%m-%d %H:%M:%S"@) {
            Some(d) => Some(d),
            None => naive_date(
                t.take(
                    if t.len() < 10 {
                        t.len() as int
                    } else {
                        10
                    },
                ),
                "%Y-%m-%d"@,
            ),
        },
    }
}

/// Parses the client-supplied capture timestamp into a calendar date.
///
/// The iOS app sends RFC-3339 in UTC; that is converted to this machine's
/// local time first, so a photo taken at 8pm on August 31st files under August
/// rather than slipping into September with the UTC date. Plain
/// `YYYY-MM-DDTHH:MM:SS` and bare `YYYY-MM-DD` are also accepted.
/// @param created_at - the timestamp string to parse
pub fn capture_date(created_at: &str) -> (res: Option<CalendarDate>)
    ensures
        trim(created_at@).len() == 0 ==> res is None,
        rfc3339_instant(trim(created_at@)) matches Some(t) ==> (trim(created_at@).len() > 0
            ==> exists|offset: int|
            -SECONDS_PER_DAY < offset < SECONDS_PER_DAY && res == Some(
                #[trigger] local_date_spec(t as int, offset),
            )),
        rfc3339_instant(trim(created_at@)) matches Some(t) ==> (trim(created_at@).len() > 0
            ==> exists|reading: Option<i32>|
            #[trigger] machine_offset_reading(t, reading) && res == Some(
                local_date_spec(t as int, offset_or_utc(reading)),
            )),
        trim(created_at@).len() > 0 && rfc3339_instant(trim(created_at@)) is None ==> res
            == capture_date_fallback(trim(created_at@)),
        res matches Some(d) ==> is_calendar_date(d),
{
    let chars = str_chars(created_at);
    let t = trim_chars(&chars);
    if t.len() == 0 {
        return None;
    }
    let trimmed = crate::text::string_from_chars(&t);
    let trimmed = trimmed.as_str();
    match parse_rfc3339_instant(trimmed) {
        Some(instant) => {
            // An instant chrono parsed is one it can place; read as UTC otherwise.
            let reading = local_offset_at(instant);
            let offset: i32 = match reading {
                Some(o) => o,
                None => 0,
            };
            assert(machine_offset_reading(instant, reading));
            let d = local_date_at(instant, offset);
            assert(d == local_date_spec(instant as int, offset as int));
            return Some(d);
        },
        None => {},
    }
    match parse_naive_datetime_date(trimmed, "%Y-%m-%dT%H:%M:%S") {
        Some(d) => return Some(d),
        None => {},
    }
    match parse_naive_datetime_date(trimmed, "%Y-%m-%d %H:%M:%S") {
        Some(d) => return Some(d),
        None => {},
    }
    let n = if t.len() < 10 {
        t.len()
    } else {
        10
    };
    let head = slice_chars(&t, 0, n);
    let head = crate::text::string_from_chars(&head);
    assert(head@ =~= t@.take(n as int));
    parse_naive_date(head.as_str(), "%Y-%m-%d")
}

/// chrono's `%Y`: the year zero-padded to four digits, with an explicit sign
/// outside `0..=9999`.
pub open spec fn year_text(y: i32) -> Seq<char> {
    if 0 <= y <= 9999 {
        zero_pad(decimal(y as nat), 4)
    } else if y < 0 {
        seq!['-'] + zero_pad(decimal((-y) as nat), 4)
    } else {
        seq!['+'] + zero_pad(decimal(y as nat), 4)
    }
}

/// chrono's `%m`: the month as two digits.
pub open spec fn month_text(m: u32) -> Seq<char> {
    zero_pad(decimal(m as nat), 2)
}

/// The `<year>/<yyyymm>-<suffix>` folder for a date.
pub open spec fn month_folder_text(d: CalendarDate, suffix: Seq<char>) -> Seq<char> {
    year_text(d.0) + seq!['/'] + year_text(d.0) + month_text(d.1) + seq!['-'] + suffix
}

fn year_chars(y: i32) -> (res: Vec<char>)
    ensures
        res@ == year_text(y),
{
    if 0 <= y && y <= 9999 {
        zero_pad_chars(&decimal_chars(y as u64), 4)
    } else {
        let mag: u64 = if y < 0 {
            (-(y as i64)) as u64
        } else {
            y as u64
        };
        let digits = zero_pad_chars(&decimal_chars(mag), 4);
        let mut out: Vec<char> = Vec::new();
        out.push(if y < 0 {
            '-'
        } else {
            '+'
        });
        let mut i: usize = 0;
        while i < digits.len()
            invariant
                i <= digits.len(),
                out@ == seq![if y < 0 { '-' } else { '+' }] + digits@.take(i as int),
            decreases digits.len() - i,
        {
            out.push(digits[i]);
            i += 1;
            assert(out@ =~= seq![if y < 0 { '-' } else { '+' }] + digits@.take(i as int));
        }
        assert(digits@.take(digits@.len() as int) =~= digits@);
        out
    }
}

/// Builds the `<year>/<yyyymm>-<suffix>` folder a date files under.
/// @param date - the capture date
/// @param suffix - suffix appended to the month folder name
pub fn month_folder_for(date: CalendarDate, suffix: &str) -> (res: String)
    ensures
        res@ == month_folder_text(date, suffix@),
{
    let year = year_chars(date.0);
    let month = zero_pad_chars(&decimal_chars(date.1 as u64), 2);
    let mut out = String::new();
    push_chars(&mut out, &year);
    string_push(&mut out, '/');
    push_chars(&mut out, &year);
    push_chars(&mut out, &month);
    string_push(&mut out, '-');
    out.append(suffix);
    assert(out@ =~= month_folder_text(date, suffix@));
    out
}

/// Builds the `<year>/<yyyymm>-<suffix>` folder for a capture timestamp,
/// falling back to today when the timestamp is missing or unparseable.
/// @param created_at - ISO-8601 capture time from the device
/// @param suffix - suffix appended to the month folder name
pub fn month_folder(created_at: &str, suffix: &str) -> (res: String)
    ensures
        exists|d: CalendarDate| is_calendar_date(d) && res@ == month_folder_text(d, suffix@),
        rfc3339_instant(trim(created_at@)) matches Some(t) ==> (trim(created_at@).len() > 0
            ==> exists|offset: int|
            -SECONDS_PER_DAY < offset < SECONDS_PER_DAY && res@ == month_folder_text(
                #[trigger] local_date_spec(t as int, offset),
                suffix@,
            )),
        rfc3339_instant(trim(created_at@)) matches Some(t) ==> (trim(created_at@).len() > 0
            ==> exists|reading: Option<i32>|
            #[trigger] machine_offset_reading(t, reading) && res@ == month_folder_text(
                local_date_spec(t as int, offset_or_utc(reading)),
                suffix@,
            )),
        trim(created_at@).len() > 0 && rfc3339_instant(trim(created_at@)) is None
            ==> match capture_date_fallback(trim(created_at@)) {
            Some(d) => res@ == month_folder_text(d, suffix@),
            None => true,
        },
{
    let parsed = capture_date(created_at);
    let date = match parsed {
        Some(d) => d,
        None => local_today(),
    };
    let folder = month_folder_for(date, suffix);
    proof {
        let t = trim(created_at@);
        if t.len() > 0 && rfc3339_instant(t) is Some {
            let instant = rfc3339_instant(t)->0 as int;
            let offset = choose|offset: int|
                -SECONDS_PER_DAY < offset < SECONDS_PER_DAY && parsed == Some(
                    #[trigger] local_date_spec(instant, offset),
                );
            assert(folder@ == month_folder_text(local_date_spec(instant, offset), suffix@));
            let reading = choose|reading: Option<i32>|
                #[trigger] machine_offset_reading(rfc3339_instant(t)->0, reading) && parsed == Some(
                    local_date_spec(instant, offset_or_utc(reading)),
                );
            assert(folder@ == month_folder_text(local_date_spec(instant, offset_or_utc(reading)), suffix@));
        }
    }
    folder
}


/// A path separator on either platform.
pub open spec fn is_path_sep(c: char) -> bool {
    c == '/' || c == '\\'
}

/// The part of `s` after its last `/` or `\`.
pub open spec fn base_name(s: Seq<char>) -> Seq<char>
    decreases s.len(),
{
    if s.len() == 0 {
        s
    } else if is_path_sep(s.last()) {
        Seq::empty()
    } else {
        base_name(s.drop_last()).push(s.last())
    }
}

/// Unicode `Cc` (control) characters, the set `char::is_control` tests for.
pub open spec fn is_control(c: char) -> bool {
    (c as u32) <= 0x1f || (0x7f <= (c as u32) <= 0x9f)
}

/// Characters Windows refuses in file names.
pub open spec fn is_forbidden(c: char) -> bool {
    c == '<' || c == '>' || c == ':' || c == '"' || c == '|' || c == '?' || c == '*'
}

/// Characters kept in a stored file name.
pub open spec fn is_kept(c: char) -> bool {
    !is_control(c) && !is_forbidden(c)
}

/// `s` without control or Windows-forbidden characters.
pub open spec fn kept_chars(s: Seq<char>) -> Seq<char>
    decreases s.len(),
{
    if s.len() == 0 {
        s
    } else if is_kept(s.last()) {
        kept_chars(s.drop_last()).push(s.last())
    } else {
        kept_chars(s.drop_last())
    }
}

/// Characters trimmed from both ends of a stored file name.
pub open spec fn is_edge(c: char) -> bool {
    c == '.' || crate::text::is_ws(c)
}

/// Number of edge characters at the front of `s`.
pub open spec fn edge_prefix_len(s: Seq<char>) -> nat
    decreases s.len(),
{
    if s.len() > 0 && is_edge(s[0]) {
        1 + edge_prefix_len(s.drop_first())
    } else {
        0
    }
}

/// Number of edge characters at the back of `s`.
pub open spec fn edge_suffix_len(s: Seq<char>) -> nat
    decreases s.len(),
{
    if s.len() > 0 && is_edge(s.last()) {
        1 + edge_suffix_len(s.drop_last())
    } else {
        0
    }
}

/// `s` without dots or whitespace at either end.
pub open spec fn strip_edges(s: Seq<char>) -> Seq<char> {
    let t = s.skip(edge_prefix_len(s) as int);
    t.take(t.len() - edge_suffix_len(t))
}

/// Index of the last `c` in `s`, if any.
pub open spec fn last_index_of(s: Seq<char>, c: char) -> Option<int> {
    if s.contains(c) {
        Some(choose|i: int| 0 <= i < s.len() && s[i] == c && forall|k: int| i < k < s.len() ==> s[k] != c)
    } else {
        None
    }
}

/// How `Path::file_stem` / `Path::extension` split a single file name: at
/// its last dot, unless that dot starts the name or the name is `..`.
pub open spec fn split_extension(name: Seq<char>) -> (Seq<char>, Option<Seq<char>>) {
    if name == seq!['.', '.'] {
        (name, None)
    } else {
        match last_index_of(name, '.') {
            None => (name, None),
            Some(i) => if i == 0 {
                (name, None)
            } else {
                (name.take(i), Some(name.skip(i + 1)))
            },
        }
    }
}

/// The extension for a MIME type, for names that carry none.
pub open spec fn content_type_extension(ct: Seq<char>) -> Seq<char> {
    if ct == "image/jpeg"@ {
        "jpg"@
    } else if ct == "image/png"@ {
        "png"@
    } else if ct == "image/heic"@ {
        "heic"@
    } else if ct == "video/quicktime"@ {
        "mov"@
    } else if ct == "video/mp4"@ {
        "mp4"@
    } else {
        "bin"@
    }
}

/// Splits a single file name at its extension dot (see [`split_extension`]).
pub fn split_file_name(name: &Vec<char>) -> (res: (Vec<char>, Option<Vec<char>>))
    ensures
        res.0@ == split_extension(name@).0,
        match res.1 {
            Some(e) => split_extension(name@).1 == Some(e@),
            None => split_extension(name@).1 is None,
        },
{
    let n = name.len();
    if n == 2 && name[0] == '.' && name[1] == '.' {
        assert(name@ =~= seq!['.', '.']);
        return (slice_chars(name, 0, n), None);
    }
    assert(name@ != seq!['.', '.']) by {
        if name@ == seq!['.', '.'] {
            assert(name@.len() == 2 && name@[0] == '.' && name@[1] == '.');
        }
    }
    let mut i = n;
    while i > 0 && name[i - 1] != '.'
        invariant
            i <= n == name@.len(),
            forall|k: int| i <= k < n ==> name@[k] != '.',
        decreases i,
    {
        i -= 1;
    }
    if i == 0 {
        assert(!name@.contains('.'));
        return (slice_chars(name, 0, n), None);
    }
    let dot = i - 1;
    proof {
        assert(name@.contains('.')) by {
            assert(name@[dot as int] == '.');
        }
        let j = choose|j: int| 0 <= j < name@.len() && name@[j] == '.' && forall|k: int| j < k < name@.len() ==> name@[k] != '.';
        if j < dot {
            assert(name@[dot as int] == '.');
        } else if j > dot {
        }
        assert(last_index_of(name@, '.') == Some(dot as int));
    }
    if dot == 0 {
        return (slice_chars(name, 0, n), None);
    }
    (slice_chars(name, 0, dot), Some(slice_chars(name, dot + 1, n)))
}

fn content_type_extension_str(ct: &str) -> (res: &'static str)
    ensures
        res@ == content_type_extension(ct@),
{
    if str_eq(ct, "image/jpeg") {
        "jpg"
    } else if str_eq(ct, "image/png") {
        "png"
    } else if str_eq(ct, "image/heic") {
        "heic"
    } else if str_eq(ct, "video/quicktime") {
        "mov"
    } else if str_eq(ct, "video/mp4") {
        "mp4"
    } else {
        "bin"
    }
}

/// The extension `extension_for` chooses for a single file name.
pub open spec fn extension_for_spec(filename: Seq<char>, ct: Seq<char>) -> Seq<char> {
    match split_extension(filename).1 {
        Some(e) => lowercase(e),
        None => content_type_extension(ct),
    }
}

/// Chooses a file extension from a file name (lowercased), falling back to
/// the content type.
/// @param filename - a single file name, without directory separators
/// @param content_type - the MIME type used when the name has no extension
pub fn extension_for(filename: &str, content_type: &str) -> (res: String)
    requires
        forall|i: int| 0 <= i < filename@.len() ==> !is_path_sep(#[trigger] filename@[i]),
    ensures
        res@ == extension_for_spec(filename@, content_type@),
{
    let name = str_chars(filename);
    let (_, ext) = split_file_name(&name);
    match ext {
        Some(e) => {
            let e = crate::text::string_from_chars(&e);
            to_lowercase(e.as_str())
        },
        None => String::from_str(content_type_extension_str(content_type)),
    }
}

fn base_name_chars(s: &Vec<char>) -> (res: Vec<char>)
    ensures
        res@ == base_name(s@),
{
    let n = s.len();
    let mut i = n;
    while i > 0 && !(s[i - 1] == '/' || s[i - 1] == '\\')
        invariant
            i <= n == s@.len(),
            forall|k: int| i <= k < n ==> !is_path_sep(s@[k]),
        decreases i,
    {
        i -= 1;
    }
    proof {
        lemma_base_name(s@, i as int);
    }
    slice_chars(s, i, n)
}

proof fn lemma_base_name(s: Seq<char>, i: int)
    requires
        0 <= i <= s.len(),
        forall|k: int| i <= k < s.len() ==> !is_path_sep(s[k]),
        i == 0 || is_path_sep(s[i - 1]),
    ensures
        base_name(s) == s.skip(i),
    decreases s.len(),
{
    if s.len() == 0 {
        assert(s.skip(i) =~= s);
    } else if i == s.len() {
        assert(s.skip(i) =~= Seq::<char>::empty());
    } else {
        lemma_base_name(s.drop_last(), i);
        assert(s.skip(i) =~= s.drop_last().skip(i).push(s.last()));
    }
}

fn kept_chars_exec(s: &Vec<char>) -> (res: Vec<char>)
    ensures
        res@ == kept_chars(s@),
{
    let mut out: Vec<char> = Vec::new();
    let mut i: usize = 0;
    while i < s.len()
        invariant
            i <= s.len(),
            out@ == kept_chars(s@.take(i as int)),
        decreases s.len() - i,
    {
        let c = s[i];
        let u = c as u32;
        let control = u <= 0x1f || (0x7f <= u && u <= 0x9f);
        let forbidden = c == '<' || c == '>' || c == ':' || c == '"' || c == '|' || c == '?' || c
            == '*';
        assert(s@.take(i + 1).drop_last() =~= s@.take(i as int));
        assert(s@.take(i + 1).last() == c);
        if !control && !forbidden {
            out.push(c);
        }
        i += 1;
    }
    assert(s@.take(s@.len() as int) =~= s@);
    out
}

proof fn lemma_edge_prefix_len(s: Seq<char>, i: int)
    requires
        0 <= i <= s.len(),
        forall|j: int| 0 <= j < i ==> is_edge(#[trigger] s[j]),
        i == s.len() || !is_edge(s[i]),
    ensures
        edge_prefix_len(s) == i,
    decreases i,
{
    if i > 0 {
        let t = s.drop_first();
        assert forall|j: int| 0 <= j < i - 1 implies is_edge(#[trigger] t[j]) by {
            assert(t[j] == s[j + 1]);
        }
        lemma_edge_prefix_len(t, i - 1);
    }
}

proof fn lemma_edge_suffix_len(s: Seq<char>, k: int)
    requires
        0 <= k <= s.len(),
        forall|j: int| s.len() - k <= j < s.len() ==> is_edge(#[trigger] s[j]),
        k == s.len() || !is_edge(s[s.len() - k - 1]),
    ensures
        edge_suffix_len(s) == k,
    decreases k,
{
    if k > 0 {
        let t = s.drop_last();
        assert forall|j: int| t.len() - (k - 1) <= j < t.len() implies is_edge(#[trigger] t[j]) by {
            assert(t[j] == s[j]);
        }
        lemma_edge_suffix_len(t, k - 1);
    }
}

fn strip_edges_exec(s: &Vec<char>) -> (res: Vec<char>)
    ensures
        res@ == strip_edges(s@),
{
    let n = s.len();
    let mut lo: usize = 0;
    while lo < n && (s[lo] == '.' || crate::text::char_is_ws(s[lo]))
        invariant
            lo <= n == s.len(),
            forall|j: int| 0 <= j < lo ==> is_edge(#[trigger] s@[j]),
        decreases n - lo,
    {
        lo += 1;
    }
    proof {
        lemma_edge_prefix_len(s@, lo as int);
    }
    let ghost mid = s@.skip(lo as int);
    let mut hi: usize = n;
    while hi > lo && (s[hi - 1] == '.' || crate::text::char_is_ws(s[hi - 1]))
        invariant
            lo <= hi <= n == s.len(),
            mid == s@.skip(lo as int),
            forall|j: int| hi <= j < n ==> is_edge(#[trigger] s@[j]),
        decreases hi - lo,
    {
        hi -= 1;
    }
    proof {
        let k = (n - hi) as int;
        assert forall|j: int| mid.len() - k <= j < mid.len() implies is_edge(#[trigger] mid[j]) by {
            assert(mid[j] == s@[j + lo]);
        }
        if k < mid.len() {
            assert(mid[mid.len() - k - 1] == s@[hi - 1]);
        }
        lemma_edge_suffix_len(mid, k);
        assert(strip_edges(s@) =~= s@.subrange(lo as int, hi as int));
    }
    slice_chars(s, lo, hi)
}

/// The name `safe_filename` stores a client-supplied name under.
pub open spec fn safe_filename_spec(filename: Seq<char>, ct: Seq<char>) -> Seq<char> {
    let cleaned = strip_edges(kept_chars(base_name(filename)));
    if cleaned.len() == 0 {
        "media."@ + content_type_extension(ct)
    } else if split_extension(cleaned).1 is None {
        cleaned + seq!['.'] + content_type_extension(ct)
    } else {
        cleaned
    }
}

/// Reduces a client-supplied filename to a safe Windows-legal base name:
/// the part after the last separator, without control or Windows-forbidden
/// characters, trimmed of dots and whitespace at both ends, with an extension
/// derived from the content type appended when it has none.
/// @param filename - the raw filename from the client
/// @param content_type - MIME type used to pick a fallback extension
pub fn safe_filename(filename: &str, content_type: &str) -> (res: String)
    ensures
        res@ == safe_filename_spec(filename@, content_type@),
{
    let raw = str_chars(filename);
    let base = base_name_chars(&raw);
    let kept = kept_chars_exec(&base);
    let cleaned = strip_edges_exec(&kept);
    let ext = content_type_extension_str(content_type);
    if cleaned.len() == 0 {
        let mut out = String::from_str("media.");
        out.append(ext);
        return out;
    }
    let (_, has_ext) = split_file_name(&cleaned);
    match has_ext {
        Some(_) => crate::text::string_from_chars(&cleaned),
        None => {
            let mut out = crate::text::string_from_chars(&cleaned);
            string_push(&mut out, '.');
            out.append(ext);
            out
        },
    }
}


/// `name` with `-<tag>` inserted before its extension (or appended when it
/// has none, or an empty one).
pub open spec fn tagged_name(name: Seq<char>, tag: Seq<char>) -> Seq<char> {
    let stem = split_extension(name).0;
    let ext = match split_extension(name).1 {
        Some(e) => e,
        None => Seq::empty(),
    };
    if ext.len() == 0 {
        stem + seq!['-'] + tag
    } else {
        stem + seq!['-'] + tag + seq!['.'] + ext
    }
}

fn tagged_name_exec(name: &Vec<char>, tag: &Vec<char>) -> (res: String)
    ensures
        res@ == tagged_name(name@, tag@),
{
    let (stem, ext) = split_file_name(name);
    let ext = match ext {
        Some(e) => e,
        None => Vec::new(),
    };
    let mut out = crate::text::string_from_chars(&stem);
    string_push(&mut out, '-');
    push_chars(&mut out, tag);
    if ext.len() > 0 {
        string_push(&mut out, '.');
        push_chars(&mut out, &ext);
    }
    out
}

/// The names `unique_filename` tries, in order, for new content whose
/// preferred name is taken: the name itself, then the name disambiguated by
/// the first eight characters of the content hash, then by the whole hash.
/// Different phones (and different months of the same phone) both emit
/// `IMG_0001.jpg`, so a colliding name is disambiguated rather than silently
/// overwriting a photo.
/// @param name - the preferred (already safe) file name
/// @param sha256 - the content hash used as the disambiguator
pub fn name_candidates(name: &str, sha256: &str) -> (res: Vec<String>)
    requires
        sha256@.len() >= 8,
        forall|i: int| 0 <= i < sha256@.len() ==> (#[trigger] sha256@[i] as u32) < 128,
    ensures
        res@.len() == 3,
        res@[0]@ == name@,
        res@[1]@ == tagged_name(name@, sha256@.take(8)),
        res@[2]@ == tagged_name(name@, sha256@),
{
    let n = str_chars(name);
    let sha = str_chars(sha256);
    let short = slice_chars(&sha, 0, 8);
    let mut out: Vec<String> = Vec::new();
    out.push(String::from_str(name));
    out.push(tagged_name_exec(&n, &short));
    out.push(tagged_name_exec(&n, &sha));
    out
}

/// `chrono::Utc::now().timestamp_nanos_opt()` (0 when out of range).
#[verifier::external_body]
fn now_nanos() -> i64 {
    chrono::Utc::now().timestamp_nanos_opt().unwrap_or_default()
}

/// Decimal text of a signed integer.
pub open spec fn signed_decimal(n: int) -> Seq<char> {
    if n < 0 {
        seq!['-'] + decimal((-n) as nat)
    } else {
        decimal(n as nat)
    }
}

/// The last-resort name when every candidate is taken:
/// `<stem>-<nanoseconds since the epoch>.<ext>`.
pub open spec fn timestamped_name(name: Seq<char>, nanos: i64) -> Seq<char> {
    split_extension(name).0 + seq!['-'] + signed_decimal(nanos as int) + seq!['.'] + match split_extension(
        name,
    ).1 {
        Some(e) => e,
        None => Seq::empty(),
    }
}

/// The last-resort name for new content when every candidate is taken,
/// disambiguated by the current time in nanoseconds.
/// @param name - the preferred (already safe) file name
pub fn timestamped_filename(name: &str) -> (res: String)
    ensures
        exists|nanos: i64| res@ == timestamped_name(name@, nanos),
{
    let nanos = now_nanos();
    let n = str_chars(name);
    let (stem, ext) = split_file_name(&n);
    let mut out = crate::text::string_from_chars(&stem);
    string_push(&mut out, '-');
    let mag: u64 = if nanos < 0 {
        (-(nanos as i128)) as u64
    } else {
        nanos as u64
    };
    if nanos < 0 {
        string_push(&mut out, '-');
    }
    push_chars(&mut out, &decimal_chars(mag));
    string_push(&mut out, '.');
    match ext {
        Some(e) => push_chars(&mut out, &e),
        None => {},
    }
    assert(out@ =~= timestamped_name(name@, nanos));
    out
}

/// The staging file name of chunk `index`: `<index>.part`.
pub open spec fn chunk_name_spec(index: u32) -> Seq<char> {
    decimal(index as nat) + ".part"@
}

/// The staging file name of a chunk.
/// @param index - zero-based chunk index
pub fn chunk_file_name(index: u32) -> (res: String)
    ensures
        res@ == chunk_name_spec(index),
{
    let mut out = String::new();
    push_chars(&mut out, &decimal_chars(index as u64));
    out.append(".part");
    out
}

/// What `u32::from_str` accepts: as for `u64`, with a value that fits in 32 bits.
pub open spec fn parse_u32_spec(s: Seq<char>) -> Option<u32> {
    match crate::text::parse_u64_spec(s) {
        Some(v) => if v <= u32::MAX {
            Some(v as u32)
        } else {
            None
        },
        None => None,
    }
}

/// The chunk index a staging file name stands for: `<u32>.part`.
pub open spec fn chunk_index_of(name: Seq<char>) -> Option<u32> {
    if ends_with(name, ".part"@) {
        parse_u32_spec(name.take(name.len() - 5))
    } else {
        None
    }
}

/// Reads a chunk index back from a staging file name, if it is one.
/// @param name - a file name found in the staging directory
pub fn parse_chunk_file_name(name: &str) -> (res: Option<u32>)
    ensures
        res == chunk_index_of(name@),
{
    let n = str_chars(name);
    let suffix = str_chars(".part");
    proof {
        reveal_strlit(".part");
    }
    if !chars_ends_with(&n, &suffix) {
        return None;
    }
    let stem = slice_chars(&n, 0, n.len() - 5);
    match crate::text::parse_u64(&stem) {
        Some(v) => if v <= u32::MAX as u64 {
            Some(v as u32)
        } else {
            None
        },
        None => None,
    }
}

/// Sorts chunk indices ascending.
fn sort_indices(v: &mut Vec<u32>)
    ensures
        forall|i: int, j: int| 0 <= i < j < final(v)@.len() ==> final(v)@[i] <= final(v)@[j],
        final(v)@.to_multiset() == old(v)@.to_multiset(),
{
    let mut out: Vec<u32> = Vec::new();
    let ghost orig = v@;
    while v.len() > 0
        invariant
            forall|i: int, j: int| 0 <= i < j < out@.len() ==> out@[i] <= out@[j],
            out@.to_multiset().add(v@.to_multiset()) == orig.to_multiset(),
        decreases v.len(),
    {
        let ghost rest = v@;
        let x = v.remove(0);
        proof {
            assert(rest.remove(0) == v@);
            assert(rest.to_multiset() =~= v@.to_multiset().insert(x)) by {
                assert(rest.to_multiset().remove(rest[0]) == v@.to_multiset());
                assert(rest.contains(rest[0]));
            }
        }
        let mut p: usize = 0;
        while p < out.len() && out[p] <= x
            invariant
                p <= out@.len(),
                forall|k: int| 0 <= k < p ==> out@[k] <= x,
            decreases out.len() - p,
        {
            p += 1;
        }
        let ghost before = out@;
        out.insert(p, x);
        proof {
            let t = out@;
            assert(t =~= before.insert(p as int, x));
            assert forall|i: int, j: int| 0 <= i < j < t.len() implies t[i] <= t[j] by {
                if j < p {
                    assert(t[i] == before[i] && t[j] == before[j]);
                } else if j == p {
                    assert(t[i] == before[i]);
                } else if i < p {
                    assert(t[i] == before[i] && t[j] == before[j - 1]);
                    assert(before[p as int] > x);
                    assert(before[p as int] <= before[j - 1] || j - 1 == p);
                } else if i == p {
                    assert(t[j] == before[j - 1]);
                    assert(before[p as int] > x);
                    assert(before[p as int] <= before[j - 1] || j - 1 == p);
                } else {
                    assert(t[i] == before[i - 1] && t[j] == before[j - 1]);
                }
            }
            assert(t.remove(p as int) =~= before);
            assert(t.contains(x)) by {
                assert(t[p as int] == x);
            }
            assert(t.to_multiset() =~= before.to_multiset().insert(x));
            assert(out@.to_multiset().add(v@.to_multiset()) =~= before.to_multiset().add(rest.to_multiset()));
        }
    }
    proof {
        assert(v@.to_multiset().len() == 0);
        assert(v@.to_multiset() =~= vstd::multiset::Multiset::empty());
        assert(out@.to_multiset() =~= orig.to_multiset());
    }
    *v = out;
}

/// The chunk indices the names stand for, in order, skipping names that are
/// not `<index>.part`.
pub open spec fn parsed_chunk_indices(names: Seq<String>) -> Seq<u32>
    decreases names.len(),
{
    if names.len() == 0 {
        Seq::empty()
    } else {
        let rest = parsed_chunk_indices(names.drop_last());
        match chunk_index_of(names.last()@) {
            Some(x) => rest.push(x),
            None => rest,
        }
    }
}

/// The chunk indices among the staging directory's file names, ascending
/// (names that are not `<index>.part` are ignored), so the client can resume
/// an interrupted upload by sending only what is missing.
/// @param names - the file names found in the staging directory
pub fn chunk_indices(names: &Vec<String>) -> (res: Vec<u32>)
    ensures
        forall|i: int, j: int| 0 <= i < j < res@.len() ==> res@[i] <= res@[j],
        res@.to_multiset() == parsed_chunk_indices(names@).to_multiset(),
{
    let mut found: Vec<u32> = Vec::new();
    let mut i: usize = 0;
    while i < names.len()
        invariant
            i <= names@.len(),
            found@ == parsed_chunk_indices(names@.take(i as int)),
        decreases names.len() - i,
    {
        let ghost prev = names@.take(i as int);
        match parse_chunk_file_name(names[i].as_str()) {
            Some(index) => {
                found.push(index);
            },
            None => {},
        }
        i += 1;
        proof {
            let cur = names@.take(i as int);
            assert(cur.drop_last() =~= prev);
            assert(cur.last() == names@[i - 1]);
        }
    }
    assert(names@.take(names@.len() as int) =~= names@);
    sort_indices(&mut found);
    found
}

/// `chrono::Utc::now().timestamp()`: the current Unix time in seconds. Nothing
/// is claimed of the value; it is the clock's.
#[verifier::external_body]
fn utc_now_secs() -> i64 {
    chrono::Utc::now().timestamp()
}

/// Builds a record from its parts, stamped with the current time as its
/// ingest time.
/// @param asset_id - stable client-side identifier for the source asset
/// @param sha256 - the content hash
/// @param filename - original filename from the device
/// @param content_type - MIME type declared by the client
/// @param media_type - "photo" or "video"
/// @param created_at - ISO-8601 capture time from the device
/// @param rel_path - where the bytes are, relative to `storage_root`
/// @param storage_root - which root `rel_path` is relative to
/// @param size - the byte count
pub fn make_record(
    asset_id: &str,
    sha256: &str,
    filename: &str,
    content_type: &str,
    media_type: &str,
    created_at: &str,
    rel_path: String,
    storage_root: StorageRoot,
    size: u64,
) -> (r: MediaRecord)
    ensures
        r.asset_id@ == asset_id@,
        r.sha256@ == sha256@,
        r.filename@ == filename@,
        r.content_type@ == content_type@,
        r.media_type@ == media_type@,
        r.created_at@ == created_at@,
        r.rel_path == rel_path,
        r.storage_root == storage_root,
        r.size == size,
{
    MediaRecord {
        asset_id: asset_id.to_owned(),
        sha256: sha256.to_owned(),
        filename: filename.to_owned(),
        content_type: content_type.to_owned(),
        media_type: media_type.to_owned(),
        created_at: created_at.to_owned(),
        rel_path,
        storage_root,
        size,
        ingested_at: utc_now_secs(),
    }
}

/// Where an upload's bytes are: a stored copy of the same content, or the
/// path (relative to the media root) they were just written to.
pub enum Placement {
    /// The indexed record of a copy of the same content still on disk.
    Stored(MediaRecord),
    /// Bytes newly written under the media root at this relative path.
    Written(String),
}

/// The record of an upload placed by its content address: when the same
/// content is already stored, the record points at that copy, so identical
/// bytes are kept once; otherwise it points at the newly written file under
/// the media root.
/// @param asset_id - stable client-side identifier for the source asset
/// @param sha256 - the content hash
/// @param filename - original filename from the device
/// @param content_type - MIME type declared by the client
/// @param media_type - "photo" or "video"
/// @param created_at - ISO-8601 capture time from the device
/// @param placement - the stored copy, or where the bytes were written
/// @param size - the byte count
pub fn place_upload(
    asset_id: &str,
    sha256: &str,
    filename: &str,
    content_type: &str,
    media_type: &str,
    created_at: &str,
    placement: Placement,
    size: u64,
) -> (r: MediaRecord)
    ensures
        r.asset_id@ == asset_id@,
        r.sha256@ == sha256@,
        r.filename@ == filename@,
        r.content_type@ == content_type@,
        r.media_type@ == media_type@,
        r.created_at@ == created_at@,
        r.size == size,
        match placement {
            Placement::Stored(prior) => r.rel_path == prior.rel_path && r.storage_root == prior.storage_root,
            Placement::Written(path) => r.rel_path == path && r.storage_root == StorageRoot::MediaRoot,
        },
{
    let (rel_path, storage_root) = match placement {
        Placement::Stored(prior) => (prior.rel_path, prior.storage_root),
        Placement::Written(path) => (path, StorageRoot::MediaRoot),
    };
    make_record(asset_id, sha256, filename, content_type, media_type, created_at, rel_path, storage_root, size)
}

/// The name of a cached JPEG rendition of some content: `<sha256>.jpg`.
/// @param sha256 - the content hash
pub fn cached_jpeg_name(sha256: &str) -> (res: String)
    ensures
        res@ == sha256@ + ".jpg"@,
{
    let mut s = sha256.to_owned();
    s.append(".jpg");
    s
}

proof fn lemma_base_name_has_no_separator(s: Seq<char>)
    ensures
        forall|i: int| 0 <= i < base_name(s).len() ==> !is_path_sep(#[trigger] base_name(s)[i]),
        forall|i: int| 0 <= i < base_name(s).len() ==> s.contains(#[trigger] base_name(s)[i]),
    decreases s.len(),
{
    if s.len() > 0 && !is_path_sep(s.last()) {
        let t = s.drop_last();
        lemma_base_name_has_no_separator(t);
        let b = base_name(s);
        assert forall|i: int| 0 <= i < b.len() implies s.contains(#[trigger] b[i]) by {
            if i < b.len() - 1 {
                let c = b[i];
                assert(base_name(t)[i] == c);
                assert(t.contains(c));
                let j = choose|j: int| 0 <= j < t.len() && t[j] == c;
                assert(s[j] == c);
            } else {
                assert(s[s.len() - 1] == b[i]);
            }
        }
    }
}

proof fn lemma_kept_chars_are_kept(s: Seq<char>)
    ensures
        forall|i: int| 0 <= i < kept_chars(s).len() ==> is_kept(#[trigger] kept_chars(s)[i]),
        forall|i: int| 0 <= i < kept_chars(s).len() ==> s.contains(#[trigger] kept_chars(s)[i]),
    decreases s.len(),
{
    if s.len() > 0 {
        let t = s.drop_last();
        lemma_kept_chars_are_kept(t);
        let k = kept_chars(s);
        assert forall|i: int| 0 <= i < k.len() implies s.contains(#[trigger] k[i]) && is_kept(k[i]) by {
            if i < kept_chars(t).len() {
                let c = k[i];
                assert(kept_chars(t)[i] == c);
                assert(t.contains(c));
                let j = choose|j: int| 0 <= j < t.len() && t[j] == c;
                assert(s[j] == c);
            } else {
                assert(s[s.len() - 1] == k[i]);
            }
        }
    }
}

proof fn lemma_edge_prefix(s: Seq<char>)
    ensures
        edge_prefix_len(s) <= s.len(),
        edge_prefix_len(s) < s.len() ==> !is_edge(s[edge_prefix_len(s) as int]),
    decreases s.len(),
{
    if s.len() > 0 && is_edge(s[0]) {
        lemma_edge_prefix(s.drop_first());
        if edge_prefix_len(s) < s.len() {
            assert(s.drop_first()[edge_prefix_len(s.drop_first()) as int] == s[edge_prefix_len(s) as int]);
        }
    }
}

proof fn lemma_edge_suffix(s: Seq<char>)
    ensures
        edge_suffix_len(s) <= s.len(),
        edge_suffix_len(s) < s.len() ==> !is_edge(s[s.len() - 1 - edge_suffix_len(s)]),
    decreases s.len(),
{
    if s.len() > 0 && is_edge(s.last()) {
        lemma_edge_suffix(s.drop_last());
        if edge_suffix_len(s) < s.len() {
            let t = s.drop_last();
            assert(t[t.len() - 1 - edge_suffix_len(t)] == s[s.len() - 1 - edge_suffix_len(s)]);
        }
    }
}

/// `strip_edges(s)` is a stretch of `s` that neither starts nor ends with a
/// dot or whitespace.
proof fn lemma_strip_edges(s: Seq<char>)
    ensures
        forall|i: int| 0 <= i < strip_edges(s).len() ==> s.contains(#[trigger] strip_edges(s)[i]),
        strip_edges(s).len() > 0 ==> !is_edge(strip_edges(s)[0]) && !is_edge(strip_edges(s).last()),
{
    let p = edge_prefix_len(s) as int;
    lemma_edge_prefix(s);
    let t = s.skip(p);
    lemma_edge_suffix(t);
    let r = strip_edges(s);
    assert forall|i: int| 0 <= i < r.len() implies s.contains(#[trigger] r[i]) by {
        assert(r[i] == s[i + p]);
    }
    if r.len() > 0 {
        assert(r[0] == s[p]);
        assert(r.last() == t[t.len() - 1 - edge_suffix_len(t)]);
    }
}

/// The fallback extensions are short runs of lowercase letters and digits.
proof fn lemma_content_type_extension(ct: Seq<char>)
    ensures
        content_type_extension(ct).len() >= 3,
        forall|i: int|
            0 <= i < content_type_extension(ct).len() ==> ('a' <= #[trigger] content_type_extension(ct)[i] <= 'z' || '0'
                <= content_type_extension(ct)[i] <= '9'),
{
    reveal_strlit("jpg");
    reveal_strlit("png");
    reveal_strlit("heic");
    reveal_strlit("mov");
    reveal_strlit("mp4");
    reveal_strlit("bin");
}

/// In `stem + "." + ext` with a non-empty stem and a dot-free `ext`, the
/// extension is `ext`.
proof fn lemma_split_appended_extension(stem: Seq<char>, ext: Seq<char>)
    requires
        stem.len() > 0,
        stem[0] != '.',
        forall|i: int| 0 <= i < ext.len() ==> #[trigger] ext[i] != '.',
    ensures
        split_extension(stem + seq!['.'] + ext).1 == Some(ext),
{
    let r = stem + seq!['.'] + ext;
    let d = stem.len() as int;
    assert(r[d] == '.');
    assert(r.contains('.'));
    let j = choose|j: int| 0 <= j < r.len() && r[j] == '.' && forall|k: int| j < k < r.len() ==> r[k] != '.';
    if j > d {
        assert(r[j] == ext[j - d - 1]);
    } else if j < d {
        assert(r[d] == '.');
    }
    assert(last_index_of(r, '.') == Some(d));
    assert(r != seq!['.', '.']) by {
        assert(r[0] == stem[0]);
    }
    assert(r.skip(d + 1) =~= ext);
}

/// The name a client-supplied file is stored under is always safe to use as
/// a single path component: it is never empty, holds no path separator and
/// no control or Windows-forbidden character, never starts with a dot or
/// whitespace (so it is never `.` or `..` and never hidden), and always
/// carries an extension.
#[verifier::spinoff_prover]
pub proof fn lemma_safe_filename_is_safe(filename: Seq<char>, ct: Seq<char>)
    ensures
        ({
            let r = safe_filename_spec(filename, ct);
            &&& r.len() > 0
            &&& forall|i: int| 0 <= i < r.len() ==> !is_path_sep(#[trigger] r[i]) && is_kept(r[i])
            &&& !is_edge(r[0])
            &&& split_extension(r).1 is Some
        }),
{
    let b = base_name(filename);
    let k = kept_chars(b);
    let cleaned = strip_edges(k);
    let ext = content_type_extension(ct);
    lemma_base_name_has_no_separator(filename);
    lemma_kept_chars_are_kept(b);
    lemma_strip_edges(k);
    lemma_content_type_extension(ct);
    let r = safe_filename_spec(filename, ct);
    assert forall|i: int| 0 <= i < cleaned.len() implies !is_path_sep(#[trigger] cleaned[i]) && is_kept(cleaned[i]) by {
        let c = cleaned[i];
        assert(k.contains(c));
        let j = choose|j: int| 0 <= j < k.len() && k[j] == c;
        assert(is_kept(k[j]));
        assert(b.contains(c));
        let m = choose|m: int| 0 <= m < b.len() && b[m] == c;
        assert(!is_path_sep(b[m]));
    }
    assert forall|i: int| 0 <= i < ext.len() implies !is_path_sep(#[trigger] ext[i]) && is_kept(ext[i]) && ext[i]
        != '.' by {
        assert('a' <= ext[i] <= 'z' || '0' <= ext[i] <= '9');
    }
    if cleaned.len() == 0 {
        reveal_strlit("media.");
        let stem: Seq<char> = seq!['m', 'e', 'd', 'i', 'a'];
        assert(r =~= stem + seq!['.'] + ext);
        lemma_split_appended_extension(stem, ext);
        assert forall|i: int| 0 <= i < r.len() implies !is_path_sep(#[trigger] r[i]) && is_kept(r[i]) by {
            if i >= 6 {
                assert(r[i] == ext[i - 6]);
            }
        }
    } else if split_extension(cleaned).1 is None {
        assert(r =~= cleaned + seq!['.'] + ext);
        lemma_split_appended_extension(cleaned, ext);
        assert forall|i: int| 0 <= i < r.len() implies !is_path_sep(#[trigger] r[i]) && is_kept(r[i]) by {
            if i < cleaned.len() {
                assert(r[i] == cleaned[i]);
            } else if i > cleaned.len() {
                assert(r[i] == ext[i - cleaned.len() - 1]);
            }
        }
        assert(r[0] == cleaned[0]);
    } else {
        assert(r == cleaned);
    }
}

/// A chunk's staging file name reads back as the index it was written for.
pub proof fn lemma_chunk_name_round_trip(index: u32)
    ensures
        chunk_index_of(chunk_name_spec(index)) == Some(index),
{
    let name = chunk_name_spec(index);
    let d = decimal(index as nat);
    reveal_strlit(".part");
    crate::text::lemma_decimal_parses_back(index as nat);
    assert(name.skip(name.len() - 5) =~= ".part"@);
    assert(name.take(name.len() - 5) =~= d);
}

/// The indices a run of staging names parses to, when each is the name of
/// the chunk written at the same place.
proof fn lemma_parsed_written_names(names: Seq<String>, written: Seq<u32>)
    requires
        names.len() == written.len(),
        forall|k: int| 0 <= k < names.len() ==> (#[trigger] names[k])@ == chunk_name_spec(written[k]),
    ensures
        parsed_chunk_indices(names) == written,
    decreases names.len(),
{
    if names.len() > 0 {
        let n = names.len() - 1;
        assert forall|k: int| 0 <= k < n implies (#[trigger] names.drop_last()[k])@ == chunk_name_spec(
            written.drop_last()[k],
        ) by {
            assert(names[k]@ == chunk_name_spec(written[k]));
        }
        lemma_parsed_written_names(names.drop_last(), written.drop_last());
        lemma_chunk_name_round_trip(written[n]);
        assert(names[n]@ == chunk_name_spec(written[n]));
        assert(written.drop_last().push(written[n]) =~= written);
    }
}

/// Chunks written under distinct indices are read back as exactly those
/// indices, each once and strictly ascending: when every staging name is the
/// name of a written chunk and no name is listed twice, any ascending
/// arrangement of the indices the names parse to (what `chunk_indices`
/// returns) is strictly ascending and holds exactly the written indices.
pub proof fn lemma_written_chunks_read_back(names: Seq<String>, written: Seq<u32>, res: Seq<u32>)
    requires
        names.len() == written.len(),
        forall|k: int| 0 <= k < names.len() ==> (#[trigger] names[k])@ == chunk_name_spec(written[k]),
        forall|j: int, k: int| 0 <= j < k < names.len() ==> names[j]@ != names[k]@,
        forall|i: int, j: int| 0 <= i < j < res.len() ==> res[i] <= res[j],
        res.to_multiset() == parsed_chunk_indices(names).to_multiset(),
    ensures
        forall|i: int, j: int| 0 <= i < j < res.len() ==> res[i] < res[j],
        forall|x: u32| res.contains(x) <==> written.contains(x),
{
    lemma_parsed_written_names(names, written);
    assert forall|j: int, k: int| 0 <= j < written.len() && 0 <= k < written.len() && j != k implies written[j]
        != written[k] by {
        assert(names[j]@ == chunk_name_spec(written[j]));
        assert(names[k]@ == chunk_name_spec(written[k]));
        if j < k {
            assert(names[j]@ != names[k]@);
        } else {
            assert(names[k]@ != names[j]@);
        }
    }
    assert(written.no_duplicates());
    written.lemma_multiset_has_no_duplicates();
    res.lemma_multiset_has_no_duplicates_conv();
    assert forall|i: int, j: int| 0 <= i < j < res.len() implies res[i] < res[j] by {
        assert(res[i] != res[j]);
    }
    assert forall|x: u32| res.contains(x) <==> written.contains(x) by {
        assert(res.to_multiset().count(x) == written.to_multiset().count(x));
    }
}

/// The stretch of `s` that a page starting at `offset` with room for `limit`
/// items covers (empty past the end).
pub open spec fn page_of<T>(s: Seq<T>, offset: nat, limit: nat) -> Seq<T> {
    let n = s.len();
    let lo: int = if offset < n { offset as int } else { n as int };
    let hi: int = if offset < n && n - offset > limit { (offset + limit) as int } else { n as int };
    s.subrange(lo, hi)
}

/// The pages from `offset` on, each with room for `limit` items, one after
/// another, as a client walking the listing sees them.
pub open spec fn pages_from<T>(s: Seq<T>, offset: nat, limit: nat) -> Seq<T>
    decreases (if offset < s.len() { s.len() - offset } else { 0 }),
{
    if limit == 0 || offset >= s.len() {
        Seq::empty()
    } else {
        page_of(s, offset, limit) + pages_from(s, offset + limit, limit)
    }
}

proof fn lemma_pages_from<T>(s: Seq<T>, offset: nat, limit: nat)
    requires
        limit >= 1,
        offset <= s.len(),
    ensures
        pages_from(s, offset, limit) == s.skip(offset as int),
    decreases s.len() - offset,
{
    if offset < s.len() {
        if offset + limit <= s.len() {
            lemma_pages_from(s, offset + limit, limit);
            assert(page_of(s, offset, limit) + s.skip((offset + limit) as int) =~= s.skip(offset as int));
        } else {
            assert(pages_from(s, offset + limit, limit) == Seq::<T>::empty());
            assert(page_of(s, offset, limit) =~= s.skip(offset as int));
            assert(page_of(s, offset, limit) + Seq::<T>::empty() =~= page_of(s, offset, limit));
        }
    } else {
        assert(s.skip(offset as int) =~= Seq::<T>::empty());
    }
}

/// Walking a listing page by page (offsets `0, limit, 2 * limit, ...`) visits
/// every item exactly once, in order: the pages, one after another, are the
/// whole listing.
pub proof fn lemma_paging_visits_every_item_once<T>(s: Seq<T>, limit: nat)
    requires
        limit >= 1,
    ensures
        pages_from(s, 0, limit) == s,
{
    lemma_pages_from(s, 0, limit);
    assert(s.skip(0) =~= s);
}

/// A content hash that passes the check holds nothing but hex digits, so it
/// can never name a parent directory, a separator or a drive: no `.`, `/`,
/// `\` or `:` byte.
pub proof fn lemma_valid_hash_has_no_path_syntax(bytes: Seq<u8>)
    requires
        valid_content_hash_spec(bytes),
    ensures
        forall|i: int|
            0 <= i < bytes.len() ==> #[trigger] bytes[i] != 0x2e && bytes[i] != 0x2f && bytes[i] != 0x5c && bytes[i]
                != 0x3a,
{
}

/// Every content address the server computes (64 lowercase hex digits, as
/// `content_hash` returns) passes the content-hash check.
pub proof fn lemma_lower_hex_hash_is_valid(s: &str)
    requires
        s@.len() == 64,
        forall|i: int| 0 <= i < 64 ==> is_lower_hex_char(#[trigger] s@[i]),
    ensures
        valid_content_hash_spec(s.spec_bytes()),
{
    assert(vstd::string::is_ascii(s)) by {
        assert forall|i: int| 0 <= i < s@.len() implies (#[trigger] s@[i] as u32) < 128 by {
            assert(is_lower_hex_char(s@[i]));
        }
    }
    vstd::string::is_ascii_spec_bytes(s);
    let b = s.spec_bytes();
    assert forall|i: int| 0 <= i < b.len() implies is_hex_byte(#[trigger] b[i]) by {
        assert(b[i] == s@[i] as u8);
        assert(is_lower_hex_char(s@[i]));
    }
}

proof fn lemma_last_index_exists(s: Seq<char>, c: char)
    requires
        s.contains(c),
    ensures
        exists|i: int| 0 <= i < s.len() && s[i] == c && forall|k: int| i < k < s.len() ==> s[k] != c,
    decreases s.len(),
{
    if s.last() == c {
        assert(s[s.len() - 1] == c);
    } else {
        let t = s.drop_last();
        let j = choose|j: int| 0 <= j < s.len() && s[j] == c;
        assert(t[j] == c);
        lemma_last_index_exists(t, c);
        let i = choose|i: int| 0 <= i < t.len() && t[i] == c && forall|k: int| i < k < t.len() ==> t[k] != c;
        assert(s[i] == c);
        assert forall|k: int| i < k < s.len() implies s[k] != c by {
            if k < t.len() {
                assert(t[k] == s[k]);
            }
        }
    }
}

/// A tagged name is the name with `-<tag>` added: exactly one dash and the
/// tag longer, less the dot of an empty extension.
proof fn lemma_tagged_name_len(name: Seq<char>, tag: Seq<char>)
    ensures
        tagged_name(name, tag).len() == name.len() + tag.len() + 1 || tagged_name(name, tag).len() == name.len()
            + tag.len(),
{
    let (stem, ext) = split_extension(name);
    if name != seq!['.', '.'] {
        if let Some(i) = last_index_of(name, '.') {
            if i != 0 {
                assert(name.contains('.'));
                lemma_last_index_exists(name, '.');
                assert(0 <= i < name.len());
                let e = name.skip(i + 1);
                assert(stem == name.take(i));
                assert(ext == Some(e));
                assert(name.len() == stem.len() + 1 + e.len());
            }
        }
    }
}

/// The names tried for new content whose preferred name is taken are all
/// different, so a colliding file is never written over: the preferred name,
/// the name tagged with the hash's first eight characters, and the name
/// tagged with the whole hash.
pub proof fn lemma_name_candidates_are_distinct(name: Seq<char>, sha256: Seq<char>)
    requires
        sha256.len() > 9,
    ensures
        tagged_name(name, sha256.take(8)) != name,
        tagged_name(name, sha256) != name,
        tagged_name(name, sha256.take(8)) != tagged_name(name, sha256),
{
    lemma_tagged_name_len(name, sha256.take(8));
    lemma_tagged_name_len(name, sha256);
}

/// What the index writes, it gives back: once a record is indexed (in place
/// of the asset's earlier record, or added), it is in the index, so the
/// manifest lists its asset id and a lookup by its content hash finds a
/// record with that content.
pub proof fn lemma_indexed_record_is_read_back(before: Seq<MediaRecord>, after: Seq<MediaRecord>, record: MediaRecord)
    requires
        (exists|i: int| 0 <= i < before.len() && after == before.update(i, record)) || after == before.push(record),
    ensures
        exists|k: int| 0 <= k < after.len() && after[k] == record,
        exists|k: int| 0 <= k < after.len() && (#[trigger] after[k]).asset_id@ == record.asset_id@,
        exists|k: int| 0 <= k < after.len() && (#[trigger] after[k]).sha256@ == record.sha256@,
{
    if after == before.push(record) {
        assert(after[before.len() as int] == record);
    } else {
        let i = choose|i: int| 0 <= i < before.len() && after == before.update(i, record);
        assert(after[i] == record);
    }
}


} // verus!
