//! The publish index: which items of the private library are shown on the
//! public media site, under which random public ids and renditions.
//!
//! The public surface never sees a content hash: [`PublicItem`] is a separate
//! type without one, and a public asset request resolves to one of a closed
//! set of [`Variant`]s, never to a caller-supplied path.

use vstd::prelude::*;

use crate::models::MediaRecord;
use crate::order::{insert_newest_first, is_newest_first, sort_newest_first, Chronological};
use crate::text::{seq_lt, str_chars, str_eq, string_push, trim, trim_str, chars_eq, find_char, first_index_of, slice_chars};

verus! {

broadcast use vstd::seq_lib::group_to_multiset_ensures;

/// The renditions a published item can have. Parsing is an exhaustive match on a
/// closed set, so the file name a request resolves to is always one of ours.
#[derive(Debug, Clone, Copy, PartialEq, Eq, Structural)]
pub enum Variant {
    /// The stream tile — a JPEG for photos and videos alike.
    Grid,
    /// The detail view image, or a video's full-size poster frame.
    Full,
    /// A three second silent clip the grid tile plays on hover.
    Loop,
    /// 540p H.264, the fallback rendition.
    V540,
    /// 1080p H.264, the primary rendition.
    V1080,
}

/// The name a variant is keyed by.
pub open spec fn key_spec(v: Variant) -> Seq<char> {
    match v {
        Variant::Grid => "grid"@,
        Variant::Full => "full"@,
        Variant::Loop => "loop"@,
        Variant::V540 => "v540"@,
        Variant::V1080 => "v1080"@,
    }
}

/// The file extension a variant is served under.
pub open spec fn extension_spec(v: Variant) -> Seq<char> {
    match v {
        Variant::Grid | Variant::Full => "jpg"@,
        _ => "mp4"@,
    }
}

/// The fixed file name a variant lives under.
pub open spec fn file_name_spec(v: Variant) -> Seq<char> {
    match v {
        Variant::Grid => "grid.jpg"@,
        Variant::Full => "full.jpg"@,
        Variant::Loop => "loop.mp4"@,
        Variant::V540 => "v540.mp4"@,
        Variant::V1080 => "v1080.mp4"@,
    }
}

/// The MIME type a variant is served as.
pub open spec fn content_type_spec(v: Variant) -> Seq<char> {
    match v {
        Variant::Grid | Variant::Full => "image/jpeg"@,
        _ => "video/mp4"@,
    }
}

/// The variant whose key is exactly `s`, if any.
pub open spec fn variant_of_key(s: Seq<char>) -> Option<Variant> {
    if s == "grid"@ {
        Some(Variant::Grid)
    } else if s == "full"@ {
        Some(Variant::Full)
    } else if s == "loop"@ {
        Some(Variant::Loop)
    } else if s == "v540"@ {
        Some(Variant::V540)
    } else if s == "v1080"@ {
        Some(Variant::V1080)
    } else {
        None
    }
}

/// What `Variant::parse` accepts: a variant key, optionally followed by `.`
/// and that variant's own extension (everything after the first dot).
pub open spec fn parse_variant_spec(raw: Seq<char>) -> Option<Variant> {
    match first_index_of(raw, '.') {
        None => variant_of_key(raw),
        Some(i) => match variant_of_key(raw.take(i)) {
            None => None,
            Some(v) => if raw.skip(i + 1) == extension_spec(v) {
                Some(v)
            } else {
                None
            },
        },
    }
}

fn variant_of_key_exec(s: &Vec<char>) -> (res: Option<Variant>)
    ensures
        res == variant_of_key(s@),
{
    if chars_eq(s, &str_chars("grid")) {
        Some(Variant::Grid)
    } else if chars_eq(s, &str_chars("full")) {
        Some(Variant::Full)
    } else if chars_eq(s, &str_chars("loop")) {
        Some(Variant::Loop)
    } else if chars_eq(s, &str_chars("v540")) {
        Some(Variant::V540)
    } else if chars_eq(s, &str_chars("v1080")) {
        Some(Variant::V1080)
    } else {
        None
    }
}

impl Variant {
    /// Resolves a URL segment to a variant, or None for anything unrecognised.
    ///
    /// The segment may carry the rendition's own file extension (`grid.jpg`,
    /// `v1080.mp4`) — Cloudflare's default cache level keys off the file
    /// extension — and both spellings are accepted, so a link that predates the
    /// extension keeps resolving. An extension that contradicts the rendition
    /// is refused.
    /// @param raw - the `:variant` path segment as received
    pub fn parse(raw: &str) -> (res: Option<Variant>)
        ensures
            res == parse_variant_spec(raw@),
    {
        let s = str_chars(raw);
        match find_char(&s, '.') {
            None => variant_of_key_exec(&s),
            Some(i) => {
                let stem = slice_chars(&s, 0, i);
                let ext = slice_chars(&s, i + 1, s.len());
                assert(stem@ =~= raw@.take(i as int));
                assert(ext@ =~= raw@.skip(i + 1));
                match variant_of_key_exec(&stem) {
                    None => None,
                    Some(v) => {
                        if chars_eq(&ext, &str_chars(v.extension())) {
                            Some(v)
                        } else {
                            None
                        }
                    },
                }
            },
        }
    }

    /// The file extension this rendition is served under.
    pub fn extension(self) -> (res: &'static str)
        ensures
            res@ == extension_spec(self),
    {
        match self {
            Variant::Grid | Variant::Full => "jpg",
            Variant::Loop | Variant::V540 | Variant::V1080 => "mp4",
        }
    }

    /// The fixed file name this variant lives under inside an item's directory.
    pub fn file_name(self) -> (res: &'static str)
        ensures
            res@ == file_name_spec(self),
    {
        match self {
            Variant::Grid => "grid.jpg",
            Variant::Full => "full.jpg",
            Variant::Loop => "loop.mp4",
            Variant::V540 => "v540.mp4",
            Variant::V1080 => "v1080.mp4",
        }
    }

    /// The name this variant is keyed by in `bytes` / `variants`.
    pub fn key(self) -> (res: &'static str)
        ensures
            res@ == key_spec(self),
    {
        match self {
            Variant::Grid => "grid",
            Variant::Full => "full",
            Variant::Loop => "loop",
            Variant::V540 => "v540",
            Variant::V1080 => "v1080",
        }
    }

    /// The MIME type this variant is served as.
    pub fn content_type(self) -> (res: &'static str)
        ensures
            res@ == content_type_spec(self),
    {
        match self {
            Variant::Grid | Variant::Full => "image/jpeg",
            Variant::Loop | Variant::V540 | Variant::V1080 => "video/mp4",
        }
    }
}

proof fn lemma_literals()
    ensures
        "grid"@ == seq!['g', 'r', 'i', 'd'],
        "full"@ == seq!['f', 'u', 'l', 'l'],
        "loop"@ == seq!['l', 'o', 'o', 'p'],
        "v540"@ == seq!['v', '5', '4', '0'],
        "v1080"@ == seq!['v', '1', '0', '8', '0'],
        "jpg"@ == seq!['j', 'p', 'g'],
        "mp4"@ == seq!['m', 'p', '4'],
        "grid.jpg"@ == "grid"@ + seq!['.'] + "jpg"@,
        "full.jpg"@ == "full"@ + seq!['.'] + "jpg"@,
        "loop.mp4"@ == "loop"@ + seq!['.'] + "mp4"@,
        "v540.mp4"@ == "v540"@ + seq!['.'] + "mp4"@,
        "v1080.mp4"@ == "v1080"@ + seq!['.'] + "mp4"@,
{
    reveal_strlit("grid");
    reveal_strlit("full");
    reveal_strlit("loop");
    reveal_strlit("v540");
    reveal_strlit("v1080");
    reveal_strlit("jpg");
    reveal_strlit("mp4");
    reveal_strlit("grid.jpg");
    reveal_strlit("full.jpg");
    reveal_strlit("loop.mp4");
    reveal_strlit("v540.mp4");
    reveal_strlit("v1080.mp4");
    assert("grid"@ =~= seq!['g', 'r', 'i', 'd']);
    assert("full"@ =~= seq!['f', 'u', 'l', 'l']);
    assert("loop"@ =~= seq!['l', 'o', 'o', 'p']);
    assert("v540"@ =~= seq!['v', '5', '4', '0']);
    assert("v1080"@ =~= seq!['v', '1', '0', '8', '0']);
    assert("jpg"@ =~= seq!['j', 'p', 'g']);
    assert("mp4"@ =~= seq!['m', 'p', '4']);
    assert("grid.jpg"@ =~= "grid"@ + seq!['.'] + "jpg"@);
    assert("full.jpg"@ =~= "full"@ + seq!['.'] + "jpg"@);
    assert("loop.mp4"@ =~= "loop"@ + seq!['.'] + "mp4"@);
    assert("v540.mp4"@ =~= "v540"@ + seq!['.'] + "mp4"@);
    assert("v1080.mp4"@ =~= "v1080"@ + seq!['.'] + "mp4"@);
}

/// The first character that tells the keys apart.
spec fn key_signature(v: Variant) -> (char, char) {
    match v {
        Variant::Grid => ('g', 'r'),
        Variant::Full => ('f', 'u'),
        Variant::Loop => ('l', 'o'),
        Variant::V540 => ('v', '5'),
        Variant::V1080 => ('v', '1'),
    }
}

/// A variant's key and its file name both parse back to that variant, and
/// distinct variants have distinct keys and file names: every spelling the
/// site links to resolves, and resolves to exactly one rendition.
pub proof fn lemma_variant_names_round_trip(v: Variant, w: Variant)
    ensures
        parse_variant_spec(key_spec(v)) == Some(v),
        parse_variant_spec(file_name_spec(v)) == Some(v),
        v != w ==> key_spec(v) != key_spec(w) && file_name_spec(v) != file_name_spec(w),
{
    lemma_literals();
    let k = key_spec(v);
    assert(k[0] == key_signature(v).0 && k[1] == key_signature(v).1);
    assert(variant_of_key(k) == Some(v)) by {
        assert(key_spec(w)[0] == key_signature(w).0 && key_spec(w)[1] == key_signature(w).1);
        assert("grid"@[0] == 'g' && "full"@[0] == 'f' && "loop"@[0] == 'l');
        assert("v540"@[1] == '5' && "v1080"@[1] == '1');
    }
    assert(!k.contains('.')) by {
        if k.contains('.') {
            let i = choose|i: int| 0 <= i < k.len() && k[i] == '.';
        }
    }
    assert(first_index_of(k, '.') is None);
    let f = file_name_spec(v);
    let dot = k.len() as int;
    assert(f =~= k + seq!['.'] + extension_spec(v));
    assert(f[dot] == '.');
    assert(forall|j: int| 0 <= j < dot ==> f[j] == k[j]);
    assert(f.take(dot) =~= k);
    assert(f.skip(dot + 1) =~= extension_spec(v));
    assert(first_index_of(f, '.') == Some(dot)) by {
        assert(f.contains('.'));
        let j = choose|j: int| 0 <= j < f.len() && f[j] == '.' && forall|m: int| 0 <= m < j ==> f[m] != '.';
        if j < dot {
            assert(f[j] == k[j]);
        } else if j > dot {
        }
    }
    if v != w {
        let kw = key_spec(w);
        assert(kw[0] == key_signature(w).0 && kw[1] == key_signature(w).1);
        assert(file_name_spec(v)[0] == k[0] && file_name_spec(v)[1] == k[1]);
        assert(file_name_spec(w) =~= kw + seq!['.'] + extension_spec(w));
        assert(file_name_spec(w)[0] == kw[0] && file_name_spec(w)[1] == kw[1]);
    }
}

proof fn lemma_key_of_variant(s: Seq<char>, v: Variant)
    requires
        variant_of_key(s) == Some(v),
    ensures
        s == key_spec(v),
{
}

proof fn lemma_file_name_parts(v: Variant)
    ensures
        file_name_spec(v) == key_spec(v) + seq!['.'] + extension_spec(v),
{
    lemma_literals();
}

/// A segment resolves to a variant exactly when it is that variant's key or
/// its file name: `parse` of `v.key()` and of `v.file_name()` gives `v`, and
/// every other string gives `None`.
#[verifier::spinoff_prover]
pub proof fn lemma_variant_parse_is_exact(raw: Seq<char>, v: Variant)
    ensures
        parse_variant_spec(raw) == Some(v) <==> (raw == key_spec(v) || raw == file_name_spec(v)),
{
    lemma_variant_names_round_trip(v, v);
    if parse_variant_spec(raw) == Some(v) {
        match first_index_of(raw, '.') {
            None => {
                lemma_key_of_variant(raw, v);
            },
            Some(i) => {
                assert(raw.contains('.'));
                crate::text::lemma_first_index_of_found(raw, '.');
                lemma_key_of_variant(raw.take(i), v);
                lemma_file_name_parts(v);
                assert(raw =~= raw.take(i) + seq!['.'] + raw.skip(i + 1));
            },
        }
    }
}

/// The standard base64 alphabet (RFC 4648 §4): `A-Z`, `a-z`, `0-9`, `+`, `/`.
pub open spec fn b64_digit(n: int) -> char {
    if n < 26 {
        (65 + n) as char
    } else if n < 52 {
        (97 + n - 26) as char
    } else if n < 62 {
        (48 + n - 52) as char
    } else if n == 62 {
        '+'
    } else {
        '/'
    }
}

/// The four characters one group of up to three bytes (the front of `s`)
/// encodes to: the bytes are zero-padded to 24 bits, read as four 6-bit
/// digits, and the digits no input byte reached are written as `=`.
pub open spec fn b64_group(s: Seq<u8>) -> Seq<char> {
    let b1: int = if s.len() > 1 { s[1] as int } else { 0 };
    let b2: int = if s.len() > 2 { s[2] as int } else { 0 };
    let n = s[0] * 0x10000 + b1 * 0x100 + b2;
    seq![
        b64_digit(n / 0x40000),
        b64_digit((n / 0x1000) % 64),
        if s.len() > 1 { b64_digit((n / 64) % 64) } else { '=' },
        if s.len() > 2 { b64_digit(n % 64) } else { '=' },
    ]
}

/// Standard padded base64 of `s` (RFC 4648 §4), group by group.
pub open spec fn base64_spec(s: Seq<u8>) -> Seq<char>
    decreases s.len(),
{
    if s.len() == 0 {
        Seq::empty()
    } else if s.len() <= 3 {
        b64_group(s)
    } else {
        b64_group(s) + base64_spec(s.skip(3))
    }
}

fn b64_char(n: u32) -> (c: char)
    requires
        n < 64,
    ensures
        c == b64_digit(n as int),
{
    if n < 26 {
        (65 + n as u8) as char
    } else if n < 52 {
        (97 + (n - 26) as u8) as char
    } else if n < 62 {
        (48 + (n - 52) as u8) as char
    } else if n == 62 {
        '+'
    } else {
        '/'
    }
}

fn push_group(out: &mut String, input: &[u8], i: usize)
    requires
        i < input@.len(),
    ensures
        final(out)@ == old(out)@ + b64_group(input@.skip(i as int)),
{
    let n = input.len();
    let ghost rest = input@.skip(i as int);
    let b0 = input[i] as u32;
    let b1 = if n - i > 1 {
        input[i + 1] as u32
    } else {
        0
    };
    let b2 = if n - i > 2 {
        input[i + 2] as u32
    } else {
        0
    };
    assert(rest[0] == b0);
    assert(rest.len() > 1 ==> rest[1] == b1);
    assert(rest.len() > 2 ==> rest[2] == b2);
    let v = b0 * 0x10000 + b1 * 0x100 + b2;
    let c0 = b64_char(v / 0x40000);
    let c1 = b64_char((v / 0x1000) % 64);
    let c2 = if n - i > 1 {
        b64_char((v / 64) % 64)
    } else {
        '='
    };
    let c3 = if n - i > 2 {
        b64_char(v % 64)
    } else {
        '='
    };
    string_push(out, c0);
    string_push(out, c1);
    string_push(out, c2);
    string_push(out, c3);
    assert(seq![c0, c1, c2, c3] =~= b64_group(rest));
    assert(final(out)@ =~= old(out)@ + b64_group(rest));
}

/// Standard base64, used to inline the feed's placeholder images.
/// @param input - the bytes to encode
pub fn base64_encode(input: &[u8]) -> (res: String)
    ensures
        res@ == base64_spec(input@),
{
    let mut out = String::new();
    let mut i: usize = 0;
    let n = input.len();
    assert(input@.skip(0) =~= input@);
    while i < n
        invariant
            i <= n == input@.len(),
            out@ + base64_spec(input@.skip(i as int)) == base64_spec(input@),
        decreases n - i,
    {
        let ghost rest = input@.skip(i as int);
        let ghost before = out@;
        push_group(&mut out, input, i);
        if n - i <= 3 {
            i = n;
            assert(input@.skip(n as int) =~= Seq::<u8>::empty());
        } else {
            i = i + 3;
            assert(rest.skip(3) =~= input@.skip(i as int));
        }
        assert(out@ + base64_spec(input@.skip(i as int)) =~= before + base64_spec(rest));
    }
    assert(input@.skip(n as int) =~= Seq::<u8>::empty());
    assert(out@ + Seq::<char>::empty() =~= out@);
    out
}

/// Base64 output is four characters per started group of three bytes.
pub proof fn lemma_base64_length(s: Seq<u8>)
    ensures
        base64_spec(s).len() == 4 * ((s.len() + 2) / 3),
    decreases s.len(),
{
    if s.len() > 3 {
        lemma_base64_length(s.skip(3));
    }
}

/// Trims a string and returns None when nothing is left.
/// @param value - the raw field value
pub fn non_empty(value: &str) -> (res: Option<String>)
    ensures
        match res {
            Some(t) => t@ == trim(value@) && t@.len() > 0,
            None => trim(value@).len() == 0,
        },
{
    let trimmed = trim_str(value);
    if trimmed.as_str().unicode_len() == 0 {
        None
    } else {
        Some(trimmed)
    }
}

/// A fresh 32-digit lowercase-hex random (version 4) UUID, in `uuid`'s
/// `simple` form. Only the shape is stated; the digits are random.
#[verifier::external_body]
fn random_uuid_simple() -> (res: String)
    ensures
        res@.len() == 32,
        forall|i: int| 0 <= i < 32 ==> is_lower_hex(#[trigger] res@[i]),
{
    uuid::Uuid::new_v4().simple().to_string()
}

/// A lowercase hexadecimal digit.
pub open spec fn is_lower_hex(c: char) -> bool {
    ('0' <= c <= '9') || ('a' <= c <= 'f')
}

/// Generates the random public id an item is addressed by on the public site:
/// the first 16 hex digits of a random UUID.
///
/// Deliberately not derived from the content hash: a public id that could be
/// computed from a file would let anyone test whether a given photo is in this
/// library.
pub fn new_public_id() -> (res: String)
    ensures
        res@.len() == 16,
        forall|i: int| 0 <= i < 16 ==> is_lower_hex(#[trigger] res@[i]),
{
    let full = random_uuid_simple();
    let digits = str_chars(full.as_str());
    let head = slice_chars(&digits, 0, 16);
    crate::text::string_from_chars(&head)
}


/// One published item, as persisted in `published/index.json`.
///
/// `sha256` is the link back to the private record; it is never part of a
/// public response — [`PublicItem`] is a separate type without it.
#[derive(Debug)]
pub struct PublishedItem {
    pub public_id: String,
    pub sha256: String,
    /// "photo" or "video".
    pub kind: String,
    /// RFC-3339 capture time carried over from the source record.
    pub captured_at: String,
    /// Unix seconds when this item was published.
    pub published_at: i64,
    /// Original filename, kept for the detail view's edge print.
    pub filename: String,
    /// Dimensions of the `full` rendition.
    pub width: u32,
    pub height: u32,
    /// Playing time in seconds, videos only, carried as the bit pattern of the
    /// `f64` ffprobe reported (this index never computes with it).
    pub duration_bits: Option<u64>,
    pub title: Option<String>,
    pub caption: Option<String>,
    /// Whether this item appears in the Theatre section.
    pub featured: bool,
    /// Dominant colour, computed at publish time.
    pub color: [u8; 3],
    /// A ~24px-wide JPEG as a data URI, shown while the real tile loads.
    pub lqip: String,
    /// Byte size of each variant that exists, keyed by variant name, in key order.
    pub bytes: Vec<(String, u64)>,
}

/// The same item as the public feed sees it: everything except the content
/// hash (and the private filename).
#[derive(Debug)]
pub struct PublicItem {
    pub public_id: String,
    pub kind: String,
    pub captured_at: String,
    pub published_at: i64,
    pub width: u32,
    pub height: u32,
    pub duration_bits: Option<u64>,
    pub title: Option<String>,
    pub caption: Option<String>,
    pub featured: bool,
    pub color: [u8; 3],
    pub lqip: String,
    pub bytes: Vec<(String, u64)>,
    /// Which variants actually exist for this item.
    pub variants: Vec<String>,
}

/// Fields a caller may set when publishing or editing an item.
pub struct PublishFields {
    pub title: Option<String>,
    pub caption: Option<String>,
    pub featured: Option<bool>,
}

impl Default for PublishFields {
    fn default() -> (f: PublishFields)
        ensures
            f.title is None && f.caption is None && f.featured is None,
    {
        PublishFields { title: None, caption: None, featured: None }
    }
}

fn copy_text(o: &Option<String>) -> (r: Option<String>)
    ensures
        r == *o,
{
    match o {
        Some(s) => Some(s.clone()),
        None => None,
    }
}

fn copy_sizes(v: &Vec<(String, u64)>) -> (r: Vec<(String, u64)>)
    ensures
        r@ == v@,
{
    let mut r: Vec<(String, u64)> = Vec::new();
    let mut i: usize = 0;
    while i < v.len()
        invariant
            i <= v.len(),
            r@ == v@.take(i as int),
        decreases v.len() - i,
    {
        let (k, n) = &v[i];
        r.push((k.clone(), *n));
        i += 1;
        assert(r@ =~= v@.take(i as int));
    }
    assert(v@.take(v@.len() as int) =~= v@);
    r
}

/// `p` is what the public feed shows of `item`.
pub open spec fn is_public_view(p: PublicItem, item: PublishedItem) -> bool {
    &&& p.public_id == item.public_id
    &&& p.kind == item.kind
    &&& p.captured_at == item.captured_at
    &&& p.published_at == item.published_at
    &&& p.width == item.width
    &&& p.height == item.height
    &&& p.duration_bits == item.duration_bits
    &&& p.title == item.title
    &&& p.caption == item.caption
    &&& p.featured == item.featured
    &&& p.color == item.color
    &&& p.lqip == item.lqip
    &&& p.bytes@ == item.bytes@
    &&& p.variants@ == item.bytes@.map_values(|e: (String, u64)| e.0)
}

/// Two items hold the same values.
pub open spec fn same_item(a: PublishedItem, b: PublishedItem) -> bool {
    &&& a.public_id == b.public_id
    &&& a.sha256 == b.sha256
    &&& a.kind == b.kind
    &&& a.captured_at == b.captured_at
    &&& a.published_at == b.published_at
    &&& a.filename == b.filename
    &&& a.width == b.width
    &&& a.height == b.height
    &&& a.duration_bits == b.duration_bits
    &&& a.title == b.title
    &&& a.caption == b.caption
    &&& a.featured == b.featured
    &&& a.color == b.color
    &&& a.lqip == b.lqip
    &&& a.bytes@ == b.bytes@
}

impl PublicItem {
    /// What the public feed shows of a published item.
    pub fn from(item: &PublishedItem) -> (p: PublicItem)
        ensures
            is_public_view(p, *item),
    {
        let mut variants: Vec<String> = Vec::new();
        let mut i: usize = 0;
        while i < item.bytes.len()
            invariant
                i <= item.bytes@.len(),
                variants@ == item.bytes@.take(i as int).map_values(|e: (String, u64)| e.0),
            decreases item.bytes.len() - i,
        {
            variants.push(item.bytes[i].0.clone());
            i += 1;
            assert(variants@ =~= item.bytes@.take(i as int).map_values(|e: (String, u64)| e.0));
        }
        assert(item.bytes@.take(item.bytes@.len() as int) =~= item.bytes@);
        PublicItem {
            public_id: item.public_id.clone(),
            kind: item.kind.clone(),
            captured_at: item.captured_at.clone(),
            published_at: item.published_at,
            width: item.width,
            height: item.height,
            duration_bits: item.duration_bits,
            title: copy_text(&item.title),
            caption: copy_text(&item.caption),
            featured: item.featured,
            color: item.color,
            lqip: item.lqip.clone(),
            bytes: copy_sizes(&item.bytes),
            variants,
        }
    }
}

impl PublishedItem {
    /// A copy of this item.
    pub fn duplicate(&self) -> (r: PublishedItem)
        ensures
            same_item(r, *self),
    {
        PublishedItem {
            public_id: self.public_id.clone(),
            sha256: self.sha256.clone(),
            kind: self.kind.clone(),
            captured_at: self.captured_at.clone(),
            published_at: self.published_at,
            filename: self.filename.clone(),
            width: self.width,
            height: self.height,
            duration_bits: self.duration_bits,
            title: copy_text(&self.title),
            caption: copy_text(&self.caption),
            featured: self.featured,
            color: self.color,
            lqip: self.lqip.clone(),
            bytes: copy_sizes(&self.bytes),
        }
    }

    /// True when a rendition of the given variant was produced for this item.
    pub fn has_variant(&self, variant: Variant) -> (res: bool)
        ensures
            res == exists|i: int| 0 <= i < self.bytes@.len() && (#[trigger] self.bytes@[i]).0@ == key_spec(variant),
    {
        let key = variant.key();
        let mut i: usize = 0;
        while i < self.bytes.len()
            invariant
                i <= self.bytes@.len(),
                key@ == key_spec(variant),
                forall|k: int| 0 <= k < i ==> (#[trigger] self.bytes@[k]).0@ != key_spec(variant),
            decreases self.bytes.len() - i,
        {
            if str_eq(self.bytes[i].0.as_str(), key) {
                return true;
            }
            i += 1;
        }
        false
    }
}

impl Chronological for PublishedItem {
    open spec fn time_key(&self) -> Seq<char> {
        self.captured_at@
    }

    open spec fn tie_key(&self) -> int {
        self.published_at as int
    }

    fn older_than(&self, other: &Self) -> (res: bool) {
        let a = str_chars(self.captured_at.as_str());
        let b = str_chars(other.captured_at.as_str());
        crate::text::chars_lt(&a, &b) || (chars_eq(&a, &b) && self.published_at < other.published_at)
    }
}


/// Whether an item belongs in the feed filtered by `kind`: "photo" and
/// "video" select by kind, "featured" by the flag, anything else (or no
/// filter) selects everything.
pub open spec fn in_feed(item: PublishedItem, kind: Option<Seq<char>>) -> bool {
    match kind {
        Some(k) => if k == "photo"@ {
            item.kind@ == "photo"@
        } else if k == "video"@ {
            item.kind@ == "video"@
        } else if k == "featured"@ {
            item.featured
        } else {
            true
        },
        None => true,
    }
}

/// The items of `s` that belong in the feed filtered by `kind`, in order.
pub open spec fn feed_filter(s: Seq<PublishedItem>, kind: Option<Seq<char>>) -> Seq<PublishedItem>
    decreases s.len(),
{
    if s.len() == 0 {
        Seq::empty()
    } else {
        (if in_feed(s[0], kind) { seq![s[0]] } else { Seq::empty() }) + feed_filter(s.drop_first(), kind)
    }
}

/// The items of `s` whose public id is not `id`, in order.
pub open spec fn without_id(s: Seq<PublishedItem>, id: Seq<char>) -> Seq<PublishedItem>
    decreases s.len(),
{
    if s.len() == 0 {
        Seq::empty()
    } else {
        (if s[0].public_id@ != id { seq![s[0]] } else { Seq::empty() }) + without_id(s.drop_first(), id)
    }
}

/// `i` is the first index of `s` whose public id is `id`.
pub open spec fn is_first_with_id(s: Seq<PublishedItem>, id: Seq<char>, i: int) -> bool {
    0 <= i < s.len() && s[i].public_id@ == id && forall|k: int| 0 <= k < i ==> (#[trigger] s[k]).public_id@ != id
}

/// `i` is the first index of `s` whose content hash is `sha`.
pub open spec fn is_first_with_sha(s: Seq<PublishedItem>, sha: Seq<char>, i: int) -> bool {
    0 <= i < s.len() && s[i].sha256@ == sha && forall|k: int| 0 <= k < i ==> (#[trigger] s[k]).sha256@ != sha
}

/// An optional text field after an edit: left alone when no value is
/// supplied, otherwise the trimmed value, or nothing when that is empty.
pub open spec fn text_after_edit(before: Option<String>, after: Option<String>, set: Option<String>) -> bool {
    match set {
        None => after == before,
        Some(t) => match after {
            None => trim(t@).len() == 0,
            Some(a) => a@ == trim(t@) && a@.len() > 0,
        },
    }
}

/// `after` is `before` with the caller's fields applied.
pub open spec fn edited(before: PublishedItem, after: PublishedItem, fields: PublishFields) -> bool {
    &&& after.public_id == before.public_id
    &&& after.sha256 == before.sha256
    &&& after.kind == before.kind
    &&& after.captured_at == before.captured_at
    &&& after.published_at == before.published_at
    &&& after.filename == before.filename
    &&& after.width == before.width
    &&& after.height == before.height
    &&& after.duration_bits == before.duration_bits
    &&& after.color == before.color
    &&& after.lqip == before.lqip
    &&& after.bytes@ == before.bytes@
    &&& text_after_edit(before.title, after.title, fields.title)
    &&& text_after_edit(before.caption, after.caption, fields.caption)
    &&& after.featured == match fields.featured {
        Some(f) => f,
        None => before.featured,
    }
}

proof fn lemma_feed_filter_subset(s: Seq<PublishedItem>, kind: Option<Seq<char>>)
    ensures
        forall|x: PublishedItem| feed_filter(s, kind).contains(x) ==> s.contains(x),
    decreases s.len(),
{
    if s.len() > 0 {
        lemma_feed_filter_subset(s.drop_first(), kind);
        assert forall|x: PublishedItem| feed_filter(s, kind).contains(x) implies s.contains(x) by {
            let f = feed_filter(s, kind);
            let j = choose|j: int| 0 <= j < f.len() && f[j] == x;
            let head: Seq<PublishedItem> = if in_feed(s[0], kind) { seq![s[0]] } else { Seq::empty() };
            if j < head.len() {
                assert(s[0] == x);
            } else {
                assert(feed_filter(s.drop_first(), kind)[j - head.len()] == x);
                assert(feed_filter(s.drop_first(), kind).contains(x));
                assert(s.drop_first().contains(x));
                let k = choose|k: int| 0 <= k < s.drop_first().len() && s.drop_first()[k] == x;
                assert(s.drop_first()[k] == s[k + 1]);
                assert(s[k + 1] == x);
            }
        }
    }
}

proof fn lemma_without_id_subset(s: Seq<PublishedItem>, id: Seq<char>)
    ensures
        forall|x: PublishedItem| without_id(s, id).contains(x) ==> s.contains(x),
    decreases s.len(),
{
    if s.len() > 0 {
        lemma_without_id_subset(s.drop_first(), id);
        assert forall|x: PublishedItem| without_id(s, id).contains(x) implies s.contains(x) by {
            let f = without_id(s, id);
            let j = choose|j: int| 0 <= j < f.len() && f[j] == x;
            let head: Seq<PublishedItem> = if s[0].public_id@ != id { seq![s[0]] } else { Seq::empty() };
            if j < head.len() {
                assert(s[0] == x);
            } else {
                assert(without_id(s.drop_first(), id)[j - head.len()] == x);
                assert(without_id(s.drop_first(), id).contains(x));
                assert(s.drop_first().contains(x));
                let k = choose|k: int| 0 <= k < s.drop_first().len() && s.drop_first()[k] == x;
                assert(s.drop_first()[k] == s[k + 1]);
                assert(s[k + 1] == x);
            }
        }
    }
}

/// Removing by public id leaves no item with that id, keeps every item with
/// another id, and changes nothing when no item had that id.
pub proof fn lemma_removed_item_is_gone(s: Seq<PublishedItem>, id: Seq<char>)
    ensures
        forall|k: int| 0 <= k < without_id(s, id).len() ==> (#[trigger] without_id(s, id)[k]).public_id@ != id,
        forall|x: PublishedItem| s.contains(x) && x.public_id@ != id ==> without_id(s, id).contains(x),
        (forall|i: int| 0 <= i < s.len() ==> (#[trigger] s[i]).public_id@ != id) ==> without_id(s, id) == s,
    decreases s.len(),
{
    if s.len() > 0 {
        let rest = s.drop_first();
        lemma_removed_item_is_gone(rest, id);
        let w = without_id(rest, id);
        let head: Seq<PublishedItem> = if s[0].public_id@ != id { seq![s[0]] } else { Seq::empty() };
        let t = without_id(s, id);
        assert(t == head + w);
        assert forall|k: int| 0 <= k < t.len() implies (#[trigger] t[k]).public_id@ != id by {
            if k < head.len() {
                assert(t[k] == s[0]);
            } else {
                assert(t[k] == w[k - head.len()]);
            }
        }
        assert forall|x: PublishedItem| s.contains(x) && x.public_id@ != id implies t.contains(x) by {
            let j = choose|j: int| 0 <= j < s.len() && s[j] == x;
            if j == 0 {
                assert(t[0] == x);
            } else {
                assert(rest[j - 1] == x);
                assert(rest.contains(x));
                let m = choose|m: int| 0 <= m < w.len() && w[m] == x;
                assert(t[m + head.len()] == x);
            }
        }
        if forall|i: int| 0 <= i < s.len() ==> (#[trigger] s[i]).public_id@ != id {
            assert forall|i: int| 0 <= i < rest.len() implies (#[trigger] rest[i]).public_id@ != id by {
                assert(rest[i] == s[i + 1]);
            }
            assert(s[0].public_id@ != id);
            assert(t =~= s);
        }
    }
}

proof fn lemma_without_id_keeps_order(s: Seq<PublishedItem>, id: Seq<char>)
    requires
        is_newest_first(s),
    ensures
        is_newest_first(without_id(s, id)),
    decreases s.len(),
{
    if s.len() > 0 {
        let rest = s.drop_first();
        assert(is_newest_first(rest)) by {
            assert forall|i: int, j: int| 0 <= i < j < rest.len() implies !crate::order::is_older::<
                PublishedItem,
            >(#[trigger] rest[i], #[trigger] rest[j]) by {
                assert(rest[i] == s[i + 1] && rest[j] == s[j + 1]);
            }
        }
        lemma_without_id_keeps_order(rest, id);
        lemma_without_id_subset(rest, id);
        let w = without_id(rest, id);
        if s[0].public_id@ != id {
            let t = seq![s[0]] + w;
            assert(without_id(s, id) == t);
            assert forall|i: int, j: int| 0 <= i < j < t.len() implies !crate::order::is_older::<
                PublishedItem,
            >(#[trigger] t[i], #[trigger] t[j]) by {
                if i == 0 {
                    assert(t[j] == w[j - 1]);
                    assert(w.contains(w[j - 1]));
                    assert(rest.contains(w[j - 1]));
                    let k = choose|k: int| 0 <= k < rest.len() && rest[k] == w[j - 1];
                    assert(rest[k] == s[k + 1]);
                    assert(s[k + 1] == t[j]);
                    assert(s[0] == t[0]);
                } else {
                    assert(t[i] == w[i - 1] && t[j] == w[j - 1]);
                }
            }
        } else {
            assert(without_id(s, id) =~= w);
        }
    }
}

/// The published set, newest capture first.
///
/// The index is small (a curated selection, not the whole library) and is
/// read on every feed request; the caller holds it behind a lock and writes
/// it through to disk on every mutation.
pub struct PublishStore {
    items: Vec<PublishedItem>,
}

impl View for PublishStore {
    type V = Seq<PublishedItem>;

    closed spec fn view(&self) -> Seq<PublishedItem> {
        self.items@
    }
}

impl PublishStore {
    /// The index is kept newest capture first.
    pub closed spec fn wf(&self) -> bool {
        is_newest_first(self.items@)
    }

    /// Builds the store from a loaded index, ordering it newest first.
    /// @param items - the persisted index, in any order
    pub fn new(items: Vec<PublishedItem>) -> (store: PublishStore)
        ensures
            store.wf(),
            is_newest_first(store@),
            store@ == crate::order::newest_first_order(items@),
            store@.to_multiset() == items@.to_multiset(),
    {
        let mut items = items;
        sort_newest_first(&mut items);
        PublishStore { items }
    }

    /// Every published item, newest capture first.
    pub fn all(&self) -> (res: Vec<PublishedItem>)
        ensures
            res@.len() == self@.len(),
            forall|i: int| 0 <= i < res@.len() ==> same_item(#[trigger] res@[i], self@[i]),
    {
        let mut out: Vec<PublishedItem> = Vec::new();
        let mut i: usize = 0;
        while i < self.items.len()
            invariant
                i <= self.items@.len(),
                out@.len() == i,
                forall|k: int| 0 <= k < i ==> same_item(#[trigger] out@[k], self.items@[k]),
            decreases self.items.len() - i,
        {
            out.push(self.items[i].duplicate());
            i += 1;
        }
        out
    }

    /// One page of the public feed, optionally filtered by kind, and the
    /// number of items matching the filter.
    /// @param offset - how many matching items to skip
    /// @param limit - how many to return
    /// @param kind - "photo", "video", "featured", or None for everything
    pub fn page(&self, offset: usize, limit: usize, kind: Option<&str>) -> (res: (Vec<PublicItem>, usize))
        ensures
            ({
                let matching = feed_filter(
                    self@,
                    match kind {
                        Some(k) => Some(k@),
                        None => None,
                    },
                );
                &&& res.1 == matching.len()
                &&& res.0@.len() == (if offset >= matching.len() {
                    0
                } else if matching.len() - offset < limit {
                    matching.len() - offset
                } else {
                    limit as int
                })
                &&& forall|i: int|
                    0 <= i < res.0@.len() ==> is_public_view(#[trigger] res.0@[i], matching[offset + i])
            }),
    {
        let ghost k = match kind {
            Some(k) => Some(k@),
            None => None,
        };
        let mut want_photo = false;
        let mut want_video = false;
        let mut want_featured = false;
        match kind {
            Some(name) => {
                if str_eq(name, "photo") {
                    want_photo = true;
                } else if str_eq(name, "video") {
                    want_video = true;
                } else if str_eq(name, "featured") {
                    want_featured = true;
                }
            },
            None => {},
        }
        let mut out: Vec<PublicItem> = Vec::new();
        let mut total: usize = 0;
        let ghost mut seen: Seq<PublishedItem> = Seq::empty();
        let mut i: usize = 0;
        assert(self.items@.skip(0) =~= self.items@);
        while i < self.items.len()
            invariant
                i <= self.items@.len(),
                feed_filter(self.items@, k) == seen + feed_filter(self.items@.skip(i as int), k),
                total == seen.len(),
                total <= i,
                out@.len() == (if offset >= seen.len() {
                    0
                } else if seen.len() - offset < limit {
                    seen.len() - offset
                } else {
                    limit as int
                }),
                forall|j: int| 0 <= j < out@.len() ==> is_public_view(#[trigger] out@[j], seen[offset + j]),
                want_photo == (k == Some("photo"@)),
                want_video == (k != Some("photo"@) && k == Some("video"@)),
                want_featured == (k != Some("photo"@) && k != Some("video"@) && k == Some("featured"@)),
                k is Some ==> k == Some(kind.unwrap()@),
            decreases self.items.len() - i,
        {
            let item = &self.items[i];
            let ghost rest = self.items@.skip(i as int);
            assert(rest[0] == *item);
            assert(rest.drop_first() =~= self.items@.skip(i + 1));
            let matches = if want_photo {
                str_eq(item.kind.as_str(), "photo")
            } else if want_video {
                str_eq(item.kind.as_str(), "video")
            } else if want_featured {
                item.featured
            } else {
                true
            };
            assert(matches == in_feed(*item, k));
            if matches {
                if total >= offset && out.len() < limit {
                    out.push(PublicItem::from(item));
                }
                proof {
                    seen = seen.push(*item);
                    assert(feed_filter(self.items@, k) =~= seen + feed_filter(self.items@.skip(i + 1), k));
                }
                total += 1;
            } else {
                proof {
                    assert(feed_filter(self.items@, k) =~= seen + feed_filter(self.items@.skip(i + 1), k));
                }
            }
            i += 1;
        }
        assert(self.items@.skip(i as int) =~= Seq::<PublishedItem>::empty());
        assert(seen + Seq::<PublishedItem>::empty() =~= seen);
        (out, total)
    }

    /// How many photos and videos are published: every item that is not a
    /// "video" counts as a photo.
    pub fn counts(&self) -> (res: (usize, usize))
        ensures
            res.1 == feed_filter(self@, Some("video"@)).len(),
            res.0 + res.1 == self@.len(),
    {
        let (_, videos) = self.page(0, 0, Some("video"));
        proof {
            lemma_filter_len(self.items@, Some("video"@));
        }
        (self.items.len() - videos, videos)
    }

    /// Looks up a published item by its public id.
    /// @param public_id - the id from a public URL
    pub fn by_public_id(&self, public_id: &str) -> (res: Option<PublishedItem>)
        ensures
            match res {
                Some(r) => exists|i: int| is_first_with_id(self@, public_id@, i) && same_item(r, self@[i]),
                None => forall|i: int| 0 <= i < self@.len() ==> (#[trigger] self@[i]).public_id@ != public_id@,
            },
    {
        match self.index_of_id(public_id) {
            Some(i) => Some(self.items[i].duplicate()),
            None => None,
        }
    }

    /// Looks up a published item by the private content hash it came from.
    /// @param sha256 - the source record's content hash
    pub fn by_sha256(&self, sha256: &str) -> (res: Option<PublishedItem>)
        ensures
            match res {
                Some(r) => exists|i: int| is_first_with_sha(self@, sha256@, i) && same_item(r, self@[i]),
                None => forall|i: int| 0 <= i < self@.len() ==> (#[trigger] self@[i]).sha256@ != sha256@,
            },
    {
        let mut i: usize = 0;
        while i < self.items.len()
            invariant
                i <= self.items@.len(),
                forall|k: int| 0 <= k < i ==> (#[trigger] self.items@[k]).sha256@ != sha256@,
            decreases self.items.len() - i,
        {
            if str_eq(self.items[i].sha256.as_str(), sha256) {
                let r = self.items[i].duplicate();
                assert(is_first_with_sha(self@, sha256@, i as int));
                return Some(r);
            }
            i += 1;
        }
        None
    }

    fn index_of_id(&self, public_id: &str) -> (res: Option<usize>)
        ensures
            match res {
                Some(i) => is_first_with_id(self@, public_id@, i as int),
                None => forall|i: int| 0 <= i < self@.len() ==> (#[trigger] self@[i]).public_id@ != public_id@,
            },
    {
        let mut i: usize = 0;
        while i < self.items.len()
            invariant
                i <= self.items@.len(),
                forall|k: int| 0 <= k < i ==> (#[trigger] self.items@[k]).public_id@ != public_id@,
            decreases self.items.len() - i,
        {
            if str_eq(self.items[i].public_id.as_str(), public_id) {
                return Some(i);
            }
            i += 1;
        }
        None
    }

    /// Edits the caption fields of a published item, returning it as edited,
    /// or None (and no change) when no item has that public id.
    /// @param public_id - which item to edit
    /// @param fields - the values to apply; None leaves a field unchanged
    pub fn update(&mut self, public_id: &str, fields: &PublishFields) -> (res: Option<PublishedItem>)
        requires
            old(self).wf(),
        ensures
            final(self).wf(),
            match res {
                Some(r) => exists|i: int|
                    is_first_with_id(old(self)@, public_id@, i) && edited(old(self)@[i], r, *fields)
                        && final(self)@.len() == old(self)@.len() && same_item(final(self)@[i], r)
                        && forall|k: int| 0 <= k < old(self)@.len() && k != i ==> final(self)@[k] == old(self)@[k],
                None => final(self)@ == old(self)@ && forall|i: int|
                    0 <= i < old(self)@.len() ==> (#[trigger] old(self)@[i]).public_id@ != public_id@,
            },
    {
        let i = match self.index_of_id(public_id) {
            Some(i) => i,
            None => return None,
        };
        let mut item = self.items[i].duplicate();
        match &fields.title {
            Some(title) => {
                item.title = non_empty(title.as_str());
            },
            None => {},
        }
        match &fields.caption {
            Some(caption) => {
                item.caption = non_empty(caption.as_str());
            },
            None => {},
        }
        match fields.featured {
            Some(featured) => {
                item.featured = featured;
            },
            None => {},
        }
        let r = item.duplicate();
        let ghost before = self.items@;
        self.items.set(i, item);
        proof {
            let after = self.items@;
            assert forall|a: int, b: int| 0 <= a < b < after.len() implies !crate::order::is_older::<
                PublishedItem,
            >(#[trigger] after[a], #[trigger] after[b]) by {
                assert(after[a].captured_at == before[a].captured_at);
                assert(after[a].published_at == before[a].published_at);
                assert(after[b].captured_at == before[b].captured_at);
                assert(after[b].published_at == before[b].published_at);
                assert(!crate::order::is_older::<PublishedItem>(before[a], before[b]));
            }
        }
        Some(r)
    }

    /// Unpublishes an item: drops every entry with this public id, reporting
    /// whether there was one.
    /// @param public_id - which item to unpublish
    pub fn remove(&mut self, public_id: &str) -> (removed: bool)
        requires
            old(self).wf(),
        ensures
            final(self).wf(),
            final(self)@ == without_id(old(self)@, public_id@),
            removed == exists|i: int| 0 <= i < old(self)@.len() && (#[trigger] old(self)@[i]).public_id@ == public_id@,
    {
        let ghost orig = self.items@;
        let mut kept: Vec<PublishedItem> = Vec::new();
        let mut removed = false;
        let mut rest = Vec::new();
        std::mem::swap(&mut rest, &mut self.items);
        let ghost mut consumed: int = 0;
        while rest.len() > 0
            invariant
                without_id(orig, public_id@) == kept@ + without_id(rest@, public_id@),
                rest@ == orig.skip(consumed),
                0 <= consumed <= orig.len(),
                removed == exists|i: int| 0 <= i < consumed && (#[trigger] orig[i]).public_id@ == public_id@,
            decreases rest.len(),
        {
            let ghost before = rest@;
            let x = rest.remove(0);
            assert(before[0] == x);
            assert(before.drop_first() =~= rest@);
            assert(orig[consumed] == x);
            let keep = !str_eq(x.public_id.as_str(), public_id);
            if keep {
                kept.push(x);
            } else {
                removed = true;
            }
            proof {
                assert(orig.skip(consumed + 1) =~= rest@);
                consumed = consumed + 1;
            }
        }
        proof {
            assert(without_id(rest@, public_id@) =~= Seq::<PublishedItem>::empty());
            assert(kept@ + Seq::<PublishedItem>::empty() =~= kept@);
            lemma_without_id_keeps_order(orig, public_id@);
        }
        self.items = kept;
        removed
    }

    /// Re-publishing content that is already published returns the existing
    /// entry with the supplied fields applied, rather than producing a second
    /// copy; None (and no change) when that content is not published yet.
    /// @param sha256 - the source record's content hash
    /// @param fields - optional title/caption/featured
    pub fn republish(&mut self, sha256: &str, fields: &PublishFields) -> (res: Option<PublishedItem>)
        requires
            old(self).wf(),
        ensures
            final(self).wf(),
            final(self)@.len() == old(self)@.len(),
            res is Some <==> exists|i: int| 0 <= i < old(self)@.len() && (#[trigger] old(self)@[i]).sha256@ == sha256@,
            res is None ==> final(self)@ == old(self)@,
            res matches Some(r) ==> exists|i: int, j: int|
                is_first_with_sha(old(self)@, sha256@, i) && is_first_with_id(old(self)@, old(self)@[i].public_id@, j)
                    && edited(old(self)@[j], r, *fields) && same_item(final(self)@[j], r) && forall|k: int|
                    0 <= k < old(self)@.len() && k != j ==> final(self)@[k] == old(self)@[k],
    {
        let existing = match self.by_sha256(sha256) {
            Some(e) => e,
            None => return None,
        };
        let ghost i = choose|i: int| is_first_with_sha(self@, sha256@, i) && same_item(existing, self@[i]);
        assert(existing.public_id@ == self@[i].public_id@);
        match self.update(existing.public_id.as_str(), fields) {
            Some(updated) => Some(updated),
            None => {
                assert(self@[i].public_id@ == existing.public_id@);
                Some(existing)
            },
        }
    }

    /// The file a public request for `variant` of `public_id` may be served
    /// from, inside that item's own directory: only for an id in the index,
    /// and only when that variant was produced for it.
    /// @param public_id - the id from a public URL
    /// @param variant - the parsed variant
    pub fn variant_file(&self, public_id: &str, variant: Variant) -> (res: Option<&'static str>)
        ensures
            res is Some <==> exists|i: int|
                0 <= i < self@.len() && is_first_with_id(self@, public_id@, i) && exists|j: int|
                    0 <= j < self@[i].bytes@.len() && (#[trigger] self@[i].bytes@[j]).0@ == key_spec(variant),
            res matches Some(f) ==> f@ == file_name_spec(variant),
    {
        match self.index_of_id(public_id) {
            Some(i) => {
                if self.items[i].has_variant(variant) {
                    Some(variant.file_name())
                } else {
                    proof {
                        assert forall|k: int| 0 <= k < self@.len() && is_first_with_id(self@, public_id@, k) implies k
                            == i by {
                            if k < i {
                                assert(self@[k].public_id@ == public_id@);
                            } else if k > i {
                                assert(self@[i as int].public_id@ == public_id@);
                            }
                        }
                    }
                    None
                }
            },
            None => None,
        }
    }

    /// Adds a newly rendered item, keeping the index newest capture first;
    /// among items with the same capture and publish times it goes last.
    /// @param item - the item to add
    pub fn insert(&mut self, item: PublishedItem)
        requires
            old(self).wf(),
        ensures
            final(self).wf(),
            final(self)@ == crate::order::insert_spec(old(self)@, item),
            final(self)@.to_multiset() == old(self)@.to_multiset().insert(item),
    {
        insert_newest_first(&mut self.items, item);
    }
}

proof fn lemma_filter_len(s: Seq<PublishedItem>, kind: Option<Seq<char>>)
    ensures
        feed_filter(s, kind).len() <= s.len(),
    decreases s.len(),
{
    if s.len() > 0 {
        lemma_filter_len(s.drop_first(), kind);
    }
}

/// How many items a feed page carries when the caller does not say.
pub const DEFAULT_FEED_LIMIT: usize = 40usize;
/// Ceiling on a caller-requested feed page size.
pub const MAX_FEED_LIMIT: usize = 120usize;

/// Paging and filtering for the public feed.
#[derive(Debug)]
pub struct FeedQuery {
    /// Offset into the published set; the previous page's `next_cursor`.
    pub cursor: Option<usize>,
    pub limit: Option<usize>,
    /// "photo", "video" or "featured". Anything else returns everything.
    pub kind: Option<String>,
}

/// One page of the public feed.
#[derive(Debug)]
pub struct FeedResponse {
    pub items: Vec<PublicItem>,
    /// Offset to pass as the next `cursor`, or None at the end of the stream.
    pub next_cursor: Option<usize>,
    /// Total matching the current filter, so the client can show progress.
    pub total: usize,
    /// Totals across the whole published set, for the site's counts.
    pub photos: usize,
    pub videos: usize,
}

/// The view of an optional `String`.
pub open spec fn opt_string_view(v: Option<String>) -> Option<Seq<char>> {
    match v {
        Some(s) => Some(s@),
        None => None,
    }
}

/// One page of published items, newest capture first: `limit` (default 40,
/// clamped to `1..=120`) items of the filtered feed starting at `cursor`
/// (default 0), with the cursor of the next page while there is one.
/// @param store - the publish index
/// @param query - paging and filter
pub fn feed(store: &PublishStore, query: &FeedQuery) -> (res: FeedResponse)
    ensures
        ({
            let want = match query.limit {
                Some(l) => l,
                None => DEFAULT_FEED_LIMIT,
            };
            let limit: int = if want < 1 {
                1
            } else if want > MAX_FEED_LIMIT {
                MAX_FEED_LIMIT as int
            } else {
                want as int
            };
            let cursor: int = match query.cursor {
                Some(c) => c as int,
                None => 0,
            };
            let matching = feed_filter(store@, opt_string_view(query.kind));
            &&& res.total == matching.len()
            &&& res.items@.len() == (if cursor >= matching.len() {
                0
            } else if matching.len() - cursor < limit {
                matching.len() - cursor
            } else {
                limit
            })
            &&& forall|i: int| 0 <= i < res.items@.len() ==> is_public_view(#[trigger] res.items@[i], matching[cursor + i])
            &&& res.items@.len() == crate::storage::page_of(matching, cursor as nat, limit as nat).len()
            &&& forall|i: int|
                0 <= i < res.items@.len() ==> is_public_view(
                    #[trigger] res.items@[i],
                    crate::storage::page_of(matching, cursor as nat, limit as nat)[i],
                )
            &&& res.next_cursor == if cursor + res.items@.len() < matching.len() {
                Some((cursor + res.items@.len()) as usize)
            } else {
                None
            }
            &&& res.videos == feed_filter(store@, Some("video"@)).len()
            &&& res.photos + res.videos == store@.len()
        }),
{
    let want = match query.limit {
        Some(l) => l,
        None => DEFAULT_FEED_LIMIT,
    };
    let limit = if want < 1 {
        1
    } else if want > MAX_FEED_LIMIT {
        MAX_FEED_LIMIT
    } else {
        want
    };
    let cursor = match query.cursor {
        Some(c) => c,
        None => 0,
    };
    let kind = match &query.kind {
        Some(k) => Some(k.as_str()),
        None => None,
    };
    let (items, total) = store.page(cursor, limit, kind);
    let (photos, videos) = store.counts();
    proof {
        let matching = feed_filter(store@, opt_string_view(query.kind));
        let page = crate::storage::page_of(matching, cursor as nat, limit as nat);
        assert forall|i: int| 0 <= i < items@.len() implies page[i] == matching[cursor + i] by {}
    }
    let next_cursor = if cursor < total && items.len() < total - cursor {
        Some(cursor + items.len())
    } else {
        None
    };
    FeedResponse { items, next_cursor, total, photos, videos }
}

/// `s` with every trailing `suffix` removed, as `str::trim_end_matches` does.
pub open spec fn strip_suffixes(s: Seq<char>, suffix: Seq<char>) -> Seq<char>
    decreases s.len(),
{
    if suffix.len() > 0 && suffix.len() <= s.len() && s.skip(s.len() - suffix.len()) == suffix {
        strip_suffixes(s.take(s.len() - suffix.len()), suffix)
    } else {
        s
    }
}

/// The variant key a video rendition's size is recorded under: its file name
/// without the `.mp4` (`v1080.mp4` is `v1080`).
/// @param file_name - the rendition's file name
pub fn rendition_key(file_name: &str) -> (res: String)
    ensures
        res@ == strip_suffixes(file_name@, ".mp4"@),
{
    let mut v = str_chars(file_name);
    let suffix = str_chars(".mp4");
    proof {
        reveal_strlit(".mp4");
    }
    while v.len() >= 4 && crate::text::chars_ends_with(&v, &suffix)
        invariant
            strip_suffixes(v@, suffix@) == strip_suffixes(file_name@, suffix@),
            suffix@ == ".mp4"@,
            suffix@.len() == 4,
        decreases v.len(),
    {
        v = slice_chars(&v, 0, v.len() - 4);
    }
    crate::text::string_from_chars(&v)
}

/// True when a playable video rendition (`v540` or `v1080`) was produced.
/// @param bytes - the sizes recorded per variant key
pub fn has_playable_rendition(bytes: &Vec<(String, u64)>) -> (res: bool)
    ensures
        res == exists|i: int|
            0 <= i < bytes@.len() && ((#[trigger] bytes@[i]).0@ == "v540"@ || bytes@[i].0@ == "v1080"@),
{
    let mut i: usize = 0;
    while i < bytes.len()
        invariant
            i <= bytes@.len(),
            forall|k: int| 0 <= k < i ==> !((#[trigger] bytes@[k]).0@ == "v540"@ || bytes@[k].0@ == "v1080"@),
        decreases bytes.len() - i,
    {
        if str_eq(bytes[i].0.as_str(), "v540") || str_eq(bytes[i].0.as_str(), "v1080") {
            return true;
        }
        i += 1;
    }
    false
}

fn initial_text(set: &Option<String>) -> (res: Option<String>)
    ensures
        text_after_edit(None, res, *set),
{
    match set {
        Some(t) => non_empty(t.as_str()),
        None => None,
    }
}

/// The placeholder shown while a tile loads: a tiny JPEG inlined as a
/// `data:image/jpeg;base64,` URI.
pub open spec fn lqip_spec(jpeg: Seq<u8>) -> Seq<char> {
    "data:image/jpeg;base64,"@ + base64_spec(jpeg)
}

/// Inlines a tiny JPEG as a `data:` URI.
/// @param jpeg - the encoded placeholder image
pub fn lqip_data_uri(jpeg: &[u8]) -> (res: String)
    ensures
        res@ == lqip_spec(jpeg@),
{
    let mut out = "data:image/jpeg;base64,".to_owned();
    let encoded = base64_encode(jpeg);
    out.append(encoded.as_str());
    out
}

/// The byte sizes of the renditions produced for one item.
#[derive(Debug, Clone, Copy)]
pub struct RenderedSizes {
    /// The detail-view JPEG.
    pub full: u64,
    /// The stream tile JPEG.
    pub grid: u64,
    /// The hover loop, when one was produced.
    pub loop_clip: Option<u64>,
    /// The 1080p rendition, when it was produced.
    pub v1080: Option<u64>,
    /// The 540p rendition, when it was produced.
    pub v540: Option<u64>,
}

/// One `(key, size)` entry, present when the rendition was produced.
pub open spec fn optional_entry(key: Seq<char>, size: Option<u64>) -> Seq<(Seq<char>, u64)> {
    match size {
        Some(n) => seq![(key, n)],
        None => Seq::empty(),
    }
}

/// The size of each produced variant, by key, in key order: `full` and
/// `grid` always, then `loop`, `v1080` and `v540` when they were produced.
pub open spec fn variant_sizes_spec(sizes: RenderedSizes) -> Seq<(Seq<char>, u64)> {
    seq![("full"@, sizes.full), ("grid"@, sizes.grid)] + optional_entry("loop"@, sizes.loop_clip) + optional_entry(
        "v1080"@,
        sizes.v1080,
    ) + optional_entry("v540"@, sizes.v540)
}

/// The views of a list of `(key, size)` entries.
pub open spec fn entry_views(v: Seq<(String, u64)>) -> Seq<(Seq<char>, u64)> {
    v.map_values(|e: (String, u64)| (e.0@, e.1))
}

/// Some entry has this key.
pub open spec fn has_key(v: Seq<(Seq<char>, u64)>, key: Seq<char>) -> bool {
    exists|i: int| 0 <= i < v.len() && (#[trigger] v[i]).0 == key
}

/// Every key is smaller than every later one: the keys are distinct and in
/// order, as a sorted map holds them.
pub open spec fn keys_ascending(v: Seq<(Seq<char>, u64)>) -> bool {
    forall|i: int, j: int| 0 <= i < j < v.len() ==> seq_lt(#[trigger] v[i].0, #[trigger] v[j].0)
}

proof fn lemma_variant_keys_ordered()
    ensures
        seq_lt("full"@, "grid"@),
        seq_lt("full"@, "loop"@),
        seq_lt("full"@, "v1080"@),
        seq_lt("full"@, "v540"@),
        seq_lt("grid"@, "loop"@),
        seq_lt("grid"@, "v1080"@),
        seq_lt("grid"@, "v540"@),
        seq_lt("loop"@, "v1080"@),
        seq_lt("loop"@, "v540"@),
        seq_lt("v1080"@, "v540"@),
{
    reveal_strlit("full");
    reveal_strlit("grid");
    reveal_strlit("loop");
    reveal_strlit("v1080");
    reveal_strlit("v540");
    assert("v1080"@.drop_first() =~= seq!['1', '0', '8', '0']);
    assert("v540"@.drop_first() =~= seq!['5', '4', '0']);
    assert(seq_lt(seq!['1', '0', '8', '0'], seq!['5', '4', '0']));
    assert("v1080"@[0] == "v540"@[0]);
    assert(seq_lt("v1080"@.drop_first(), "v540"@.drop_first()));
}

/// The produced variants' keys are in ascending order.
pub proof fn lemma_variant_sizes_in_key_order(sizes: RenderedSizes)
    ensures
        keys_ascending(variant_sizes_spec(sizes)),
        has_key(variant_sizes_spec(sizes), "full"@),
        has_key(variant_sizes_spec(sizes), "grid"@),
        (sizes.v1080 is Some || sizes.v540 is Some) ==> (has_key(variant_sizes_spec(sizes), "v1080"@) || has_key(
            variant_sizes_spec(sizes),
            "v540"@,
        )),
{
    lemma_variant_keys_ordered();
    let v = variant_sizes_spec(sizes);
    assert(v[0].0 == "full"@);
    assert(v[1].0 == "grid"@);
    let a = optional_entry("loop"@, sizes.loop_clip);
    let b = optional_entry("v1080"@, sizes.v1080);
    let c = optional_entry("v540"@, sizes.v540);
    let la = a.len() as int;
    let lb = b.len() as int;
    if sizes.v1080 is Some {
        assert(v[2 + la].0 == "v1080"@);
    }
    if sizes.v540 is Some {
        assert(v[2 + la + lb].0 == "v540"@);
    }
    assert forall|i: int, j: int| 0 <= i < j < v.len() implies seq_lt(#[trigger] v[i].0, #[trigger] v[j].0) by {
        // Each key's place in the fixed order full, grid, loop, v1080, v540.
        let rank = |k: int| if k < 2 {
            k
        } else if k < 2 + la {
            2
        } else if k < 2 + la + lb {
            3
        } else {
            4
        };
        assert(v[i].0 == seq!["full"@, "grid"@, "loop"@, "v1080"@, "v540"@][rank(i)]);
        assert(v[j].0 == seq!["full"@, "grid"@, "loop"@, "v1080"@, "v540"@][rank(j)]);
        assert(rank(i) < rank(j));
    }
}

/// The `(key, size)` list an item's renditions are recorded under, or None
/// for a video when no playable rendition (`v540` or `v1080`) was produced.
/// @param is_video - whether the item is a video
/// @param sizes - what was produced
pub fn variant_sizes(is_video: bool, sizes: &RenderedSizes) -> (res: Option<Vec<(String, u64)>>)
    ensures
        res is Some <==> (!is_video || sizes.v1080 is Some || sizes.v540 is Some),
        res matches Some(v) ==> entry_views(v@) == variant_sizes_spec(*sizes),
        res matches Some(v) ==> keys_ascending(entry_views(v@)),
        res matches Some(v) ==> has_key(entry_views(v@), "full"@) && has_key(entry_views(v@), "grid"@),
        res matches Some(v) ==> (is_video ==> has_key(entry_views(v@), "v540"@) || has_key(entry_views(v@), "v1080"@)),
{
    if is_video && sizes.v1080.is_none() && sizes.v540.is_none() {
        return None;
    }
    let mut v: Vec<(String, u64)> = Vec::new();
    v.push(("full".to_owned(), sizes.full));
    v.push(("grid".to_owned(), sizes.grid));
    let ghost mut built: Seq<(Seq<char>, u64)> = seq![("full"@, sizes.full), ("grid"@, sizes.grid)];
    assert(entry_views(v@) =~= built);
    match sizes.loop_clip {
        Some(n) => {
            v.push(("loop".to_owned(), n));
        },
        None => {},
    }
    proof {
        built = built + optional_entry("loop"@, sizes.loop_clip);
    }
    assert(entry_views(v@) =~= built);
    match sizes.v1080 {
        Some(n) => {
            v.push(("v1080".to_owned(), n));
        },
        None => {},
    }
    proof {
        built = built + optional_entry("v1080"@, sizes.v1080);
    }
    assert(entry_views(v@) =~= built);
    match sizes.v540 {
        Some(n) => {
            v.push(("v540".to_owned(), n));
        },
        None => {},
    }
    proof {
        built = built + optional_entry("v540"@, sizes.v540);
    }
    assert(entry_views(v@) =~= variant_sizes_spec(*sizes));
    proof {
        lemma_variant_sizes_in_key_order(*sizes);
    }
    Some(v)
}

/// Builds the index entry for a freshly rendered record: the record's hash,
/// capture time and filename, `video` or `photo` by its media type, the
/// caller's title and caption trimmed (blank ones dropped), featured only
/// when asked, the placeholder as a data URI, and the size of each
/// rendition produced. A video with no playable rendition gets no entry.
/// @param public_id - the id allocated for the item
/// @param record - the source record
/// @param fields - optional title/caption/featured
/// @param published_at - unix seconds now
/// @param width - width of the full rendition
/// @param height - height of the full rendition
/// @param duration_bits - the video's playing time as `f64` bits, when positive
/// @param color - the dominant colour
/// @param placeholder_jpeg - the tiny placeholder JPEG
/// @param sizes - the size of each rendition produced
pub fn build_published_item(
    public_id: String,
    record: &MediaRecord,
    fields: &PublishFields,
    published_at: i64,
    width: u32,
    height: u32,
    duration_bits: Option<u64>,
    color: [u8; 3],
    placeholder_jpeg: &[u8],
    sizes: &RenderedSizes,
) -> (res: Option<PublishedItem>)
    ensures
        res is Some <==> (record.media_type@ != "video"@ || sizes.v1080 is Some || sizes.v540 is Some),
        res matches Some(item) ==> {
            &&& item.public_id == public_id
            &&& item.sha256@ == record.sha256@
            &&& item.kind@ == (if record.media_type@ == "video"@ {
                "video"@
            } else {
                "photo"@
            })
            &&& item.captured_at@ == record.created_at@
            &&& item.published_at == published_at
            &&& item.filename@ == record.filename@
            &&& item.width == width
            &&& item.height == height
            &&& item.duration_bits == duration_bits
            &&& text_after_edit(None, item.title, fields.title)
            &&& text_after_edit(None, item.caption, fields.caption)
            &&& item.featured == match fields.featured {
                Some(f) => f,
                None => false,
            }
            &&& item.color == color
            &&& item.lqip@ == lqip_spec(placeholder_jpeg@)
            &&& entry_views(item.bytes@) == variant_sizes_spec(*sizes)
            &&& keys_ascending(entry_views(item.bytes@))
            &&& has_key(entry_views(item.bytes@), "full"@)
            &&& has_key(entry_views(item.bytes@), "grid"@)
            &&& record.media_type@ == "video"@ ==> has_key(entry_views(item.bytes@), "v540"@) || has_key(
                entry_views(item.bytes@),
                "v1080"@,
            )
        },
{
    let is_video = str_eq(record.media_type.as_str(), "video");
    let bytes = match variant_sizes(is_video, sizes) {
        Some(b) => b,
        None => return None,
    };
    let kind = if is_video {
        "video".to_owned()
    } else {
        "photo".to_owned()
    };
    Some(
        PublishedItem {
            public_id,
            sha256: record.sha256.clone(),
            kind,
            captured_at: record.created_at.clone(),
            published_at,
            filename: record.filename.clone(),
            width,
            height,
            duration_bits,
            title: initial_text(&fields.title),
            caption: initial_text(&fields.caption),
            featured: match fields.featured {
                Some(f) => f,
                None => false,
            },
            color,
            lqip: lqip_data_uri(placeholder_jpeg),
            bytes,
        },
    )
}

/// What an edit writes is what a lookup by the same public id reads back:
/// after `update` returns an edited item, the first item with that id is
/// that edited item, and every other item is as it was.
pub proof fn lemma_edit_is_read_back(
    before: Seq<PublishedItem>,
    after: Seq<PublishedItem>,
    id: Seq<char>,
    fields: PublishFields,
    r: PublishedItem,
    i: int,
)
    requires
        is_first_with_id(before, id, i),
        edited(before[i], r, fields),
        after.len() == before.len(),
        same_item(after[i], r),
        forall|k: int| 0 <= k < before.len() && k != i ==> after[k] == before[k],
    ensures
        is_first_with_id(after, id, i),
        forall|j: int| is_first_with_id(after, id, j) ==> j == i && same_item(after[j], r),
{
    assert forall|k: int| 0 <= k < i implies (#[trigger] after[k]).public_id@ != id by {
        assert(after[k] == before[k]);
    }
    assert forall|j: int| is_first_with_id(after, id, j) implies j == i && same_item(after[j], r) by {
        if j < i {
            assert(after[j] == before[j]);
        } else if j > i {
            assert(after[i].public_id@ == id);
        }
    }
}

/// A published item is in the index: inserting keeps every other item and
/// adds this one, newest capture first.
pub proof fn lemma_published_item_is_listed(before: Seq<PublishedItem>, item: PublishedItem)
    ensures
        crate::order::insert_spec(before, item).contains(item),
        crate::order::insert_spec(before, item).len() == before.len() + 1,
{
    crate::order::lemma_insert_spec_shape(before, item);
}

} // verus!
