//! Runtime configuration for the Phone Sync backend.
//!
//! Values come from `PHONE_SYNC_*` environment variables with development
//! defaults, so the server runs out of the box and can be locked down via the
//! environment in production. Reading the environment and the filesystem is
//! the caller's business; the rules for turning what was read into settings
//! are here.

use vstd::prelude::*;

use std::path::PathBuf;

use rand_core::RngCore;

use crate::imaging::MediaTools;
use crate::storage::{hex_encode, hex_spec, is_lower_hex_char, lemma_hex_shape};
use crate::text::{parse_i64, parse_i64_spec, parse_u64, parse_u64_spec, str_chars, trim, trim_chars, string_from_chars};

verus! {

#[verifier::external_type_specification]
#[verifier::external_body]
pub struct ExPathBuf(PathBuf);

/// Default bind address.
pub const DEFAULT_BIND_ADDR: &'static str = "0.0.0.0:8080";
/// Default data directory.
pub const DEFAULT_DATA_DIR: &'static str = "./data";
/// Default month-folder suffix.
pub const DEFAULT_FOLDER_SUFFIX: &'static str = "phone-sync";
/// The seeded username.
pub const DEFAULT_USERNAME: &'static str = "jason";
/// The seeded development password, hashed at startup when no hash is configured.
pub const DEFAULT_PASSWORD: &'static str = "modestMouse1!";
/// Token lifetime: one year.
pub const DEFAULT_TOKEN_TTL_SECS: i64 = 31536000i64;
/// Per-file upload cap: 2 GiB.
pub const DEFAULT_MAX_UPLOAD_BYTES: u64 = 2147483648u64;
/// The ffmpeg binary, found on `PATH`.
pub const DEFAULT_FFMPEG: &'static str = "ffmpeg";
/// The ffprobe binary, found on `PATH`.
pub const DEFAULT_FFPROBE: &'static str = "ffprobe";
/// Longest edge of a grid thumbnail.
pub const DEFAULT_THUMB_MAX_DIM: u32 = 512u32;
/// Longest edge of a full-screen preview.
pub const DEFAULT_PREVIEW_MAX_DIM: u32 = 2048u32;
/// Default `/api/media` page size.
pub const DEFAULT_PAGE_SIZE: usize = 120usize;
/// Cap on a caller-requested page size.
pub const DEFAULT_MAX_PAGE_SIZE: usize = 500usize;

/// Fully resolved server configuration.
pub struct Config {
    /// Address to bind, e.g. `0.0.0.0:8080`.
    pub bind_addr: String,
    /// Root directory where the metadata index and thumbnail cache live.
    pub data_dir: PathBuf,
    /// Root directory the imported photos/videos are filed under, in
    /// `<year>/<yyyymm>-<suffix>` folders.
    pub media_root: PathBuf,
    /// Suffix appended to each month folder name (`202608-phone-sync`).
    pub media_folder_suffix: String,
    /// The single seeded username permitted to sign in.
    pub username: String,
    /// Argon2 PHC hash of the seeded password.
    pub password_hash: String,
    /// HMAC secret used to sign/verify JWTs.
    pub jwt_secret: String,
    /// Token lifetime in seconds (default 1 year).
    pub token_ttl_secs: i64,
    /// Maximum accepted upload size in bytes.
    pub max_upload_bytes: usize,
    /// Path to the ffmpeg binary (renders HEIC and video).
    pub ffmpeg_path: String,
    /// Path to ffprobe (reports a HEIC's tile-grid layout).
    pub ffprobe_path: String,
    /// Longest edge of a grid thumbnail.
    pub thumbnail_max_dim: u32,
    /// Longest edge of a full-screen preview.
    pub preview_max_dim: u32,
    /// Default `/api/media` page size.
    pub default_page_size: usize,
    /// Cap on a caller-requested page size.
    pub max_page_size: usize,
    /// Concurrency of the startup thumbnail backfill.
    pub thumbnail_workers: usize,
}

impl Config {
    /// The ffmpeg/ffprobe paths the renderers use.
    pub fn media_tools(&self) -> (tools: MediaTools)
        ensures
            tools.ffmpeg@ == self.ffmpeg_path@,
            tools.ffprobe@ == self.ffprobe_path@,
    {
        MediaTools { ffmpeg: self.ffmpeg_path.clone(), ffprobe: self.ffprobe_path.clone() }
    }
}

/// A text setting: the variable's value when it is set (even to the empty
/// string), else the default.
/// @param value - the environment variable's value, if set
/// @param default - the value used when it is not
pub fn text_setting(value: Option<&str>, default: &str) -> (res: String)
    ensures
        res@ == match value {
            Some(v) => v@,
            None => default@,
        },
{
    match value {
        Some(v) => v.to_owned(),
        None => default.to_owned(),
    }
}

/// What a numeric setting resolves to: the value when it parses as an
/// unsigned integer no larger than `max`, else the default.
pub open spec fn bounded_setting_spec(value: Option<Seq<char>>, max: u64, default: u64) -> u64 {
    match value {
        Some(v) => match parse_u64_spec(v) {
            Some(n) => if n <= max {
                n
            } else {
                default
            },
            None => default,
        },
        None => default,
    }
}

/// Reads an unsigned setting no larger than `max`: the parsed value when the
/// variable is set and parses (as `from_str` would) within range, else the
/// default.
/// @param value - the environment variable's value, if set
/// @param max - the largest value the target type holds
/// @param default - the value used when unset or invalid
pub fn bounded_setting(value: Option<&str>, max: u64, default: u64) -> (res: u64)
    ensures
        res == bounded_setting_spec(
            match value {
                Some(v) => Some(v@),
                None => None,
            },
            max,
            default,
        ),
{
    match value {
        Some(v) => match parse_u64(&str_chars(v)) {
            Some(n) => if n <= max {
                n
            } else {
                default
            },
            None => default,
        },
        None => default,
    }
}

/// Reads a `u32` setting, falling back to the default when unset or invalid.
/// @param value - the environment variable's value, if set
/// @param default - the value used when unset or invalid
pub fn u32_setting(value: Option<&str>, default: u32) -> (res: u32)
    ensures
        res == bounded_setting_spec(
            match value {
                Some(v) => Some(v@),
                None => None,
            },
            u32::MAX as u64,
            default as u64,
        ),
{
    bounded_setting(value, u32::MAX as u64, default as u64) as u32
}

/// Reads a `usize` setting, falling back to the default when unset or invalid.
/// @param value - the environment variable's value, if set
/// @param default - the value used when unset or invalid
pub fn usize_setting(value: Option<&str>, default: usize) -> (res: usize)
    ensures
        res == bounded_setting_spec(
            match value {
                Some(v) => Some(v@),
                None => None,
            },
            usize::MAX as u64,
            default as u64,
        ),
{
    bounded_setting(value, usize::MAX as u64, default as u64) as usize
}

/// Reads an `i64` setting, falling back to the default when unset or invalid.
/// @param value - the environment variable's value, if set
/// @param default - the value used when unset or invalid
pub fn i64_setting(value: Option<&str>, default: i64) -> (res: i64)
    ensures
        res == match value {
            Some(v) => match parse_i64_spec(v@) {
                Some(n) => n,
                None => default,
            },
            None => default,
        },
{
    match value {
        Some(v) => match parse_i64(&str_chars(v)) {
            Some(n) => n,
            None => default,
        },
        None => default,
    }
}

/// The startup thumbnail backfill's default concurrency: half the cores,
/// at least 1 and at most 8.
/// @param cores - how many cores the machine reports
pub fn default_thumbnail_workers(cores: usize) -> (res: usize)
    ensures
        res == if cores / 2 < 1 {
            1
        } else if cores / 2 > 8 {
            8
        } else {
            cores / 2
        },
        1 <= res <= 8,
{
    let half = cores / 2;
    if half < 1 {
        1
    } else if half > 8 {
        8
    } else {
        half
    }
}

/// An explicitly configured signing secret wins when it holds anything but
/// whitespace; it is used exactly as given.
/// @param value - `PHONE_SYNC_JWT_SECRET`, if set
pub fn explicit_jwt_secret(value: Option<&str>) -> (res: Option<String>)
    ensures
        match value {
            Some(v) => if trim(v@).len() > 0 {
                res matches Some(s) && s@ == v@
            } else {
                res is None
            },
            None => res is None,
        },
{
    match value {
        Some(v) => {
            let t = trim_chars(&str_chars(v));
            if t.len() > 0 {
                Some(v.to_owned())
            } else {
                None
            }
        },
        None => None,
    }
}

/// A persisted signing secret is used, trimmed, when the file holds anything
/// but whitespace; otherwise a new one must be generated.
/// @param contents - the text of `<data dir>/jwt-secret`, if it could be read
pub fn persisted_jwt_secret(contents: Option<&str>) -> (res: Option<String>)
    ensures
        match contents {
            Some(c) => if trim(c@).len() > 0 {
                res matches Some(s) && s@ == trim(c@)
            } else {
                res is None
            },
            None => res is None,
        },
{
    match contents {
        Some(c) => {
            let t = trim_chars(&str_chars(c));
            if t.len() > 0 {
                Some(string_from_chars(&t))
            } else {
                None
            }
        },
        None => None,
    }
}

/// `rand_core::OsRng::fill_bytes`: 32 bytes from the operating system's
/// CSPRNG. Nothing is claimed of the bytes beyond their number; the call
/// panics only if the OS generator itself fails.
#[verifier::external_body]
fn os_random_bytes() -> (res: Vec<u8>)
    ensures
        res@.len() == 32,
{
    let mut bytes = [0u8; 32];
    rand_core::OsRng.fill_bytes(&mut bytes);
    bytes.to_vec()
}

/// Generates a 256-bit signing secret from the OS CSPRNG, as 64 lowercase
/// hex digits.
pub fn random_hex_secret() -> (res: String)
    ensures
        res@.len() == 64,
        forall|i: int| 0 <= i < res@.len() ==> is_lower_hex_char(#[trigger] res@[i]),
        exists|b: Seq<u8>| b.len() == 32 && res@ == hex_spec(b),
{
    let bytes = os_random_bytes();
    let s = hex_encode(bytes.as_slice());
    proof {
        lemma_hex_shape(bytes@);
    }
    s
}

} // verus!
