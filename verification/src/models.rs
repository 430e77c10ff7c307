//! Request/response and persistence types shared across the API.

use vstd::prelude::*;

verus! {

/// Sign-in request body.
#[derive(Debug)]
pub struct LoginRequest {
    pub username: String,
    pub password: String,
}

/// Sign-in response containing the long-lived JWT.
#[derive(Debug)]
pub struct LoginResponse {
    pub token: String,
    /// Unix timestamp (seconds) when the token expires.
    pub expires_at: i64,
}

/// JWT claims. `sub` is the username, `exp` the expiry (unix seconds).
#[derive(Debug)]
pub struct Claims {
    pub sub: String,
    pub exp: i64,
}

/// Client-supplied metadata accompanying an upload (the JSON multipart part).
#[derive(Debug)]
pub struct UploadMetadata {
    /// Stable PhotoKit localIdentifier for the source asset.
    pub asset_id: String,
    pub filename: String,
    pub content_type: String,
    /// ISO-8601 capture time from the device.
    pub created_at: String,
    /// "photo" or "video".
    pub media_type: String,
    /// Client-computed sha256 (hex) of the file bytes, for integrity checking.
    pub sha256: String,
}

/// Response to a successful upload.
#[derive(Debug)]
pub struct UploadResponse {
    /// Server record id (the sha256, which is the content address).
    pub id: String,
    pub sha256: String,
    /// True once the bytes are persisted.
    pub stored: bool,
    /// True if the content already existed (idempotent no-op write).
    pub duplicate: bool,
}

/// Which configured root a record's `rel_path` is relative to.
///
/// Records written before the date-organized layout live under
/// `<data_dir>/media/<ab>/<sha>.<ext>`; everything written since lives under the
/// configured media root. The legacy variant is the default so an index
/// written by an older build keeps resolving.
#[derive(Debug, Clone, Copy, PartialEq, Eq, Structural)]
pub enum StorageRoot {
    /// Legacy content-addressed layout inside the data dir.
    DataDir,
    /// Date-organized layout under the configured media root.
    MediaRoot,
}

impl Default for StorageRoot {
    fn default() -> (r: StorageRoot)
        ensures
            r == StorageRoot::DataDir,
    {
        StorageRoot::DataDir
    }
}

/// A persisted media record kept in the metadata index.
#[derive(Debug)]
pub struct MediaRecord {
    pub asset_id: String,
    pub sha256: String,
    pub filename: String,
    pub content_type: String,
    pub media_type: String,
    pub created_at: String,
    /// Path to the bytes, relative to the root named by `storage_root`,
    /// e.g. `2026/202608-phone-sync/IMG_0001.HEIC`.
    pub rel_path: String,
    /// Which configured root `rel_path` is relative to.
    pub storage_root: StorageRoot,
    pub size: u64,
    /// Server-side ingest time (unix seconds).
    pub ingested_at: i64,
}

impl MediaRecord {
    /// A copy of this record.
    pub fn duplicate(&self) -> (r: MediaRecord)
        ensures
            r == *self,
    {
        MediaRecord {
            asset_id: self.asset_id.clone(),
            sha256: self.sha256.clone(),
            filename: self.filename.clone(),
            content_type: self.content_type.clone(),
            media_type: self.media_type.clone(),
            created_at: self.created_at.clone(),
            rel_path: self.rel_path.clone(),
            storage_root: self.storage_root,
            size: self.size,
            ingested_at: self.ingested_at,
        }
    }
}

/// Response listing which asset ids the server already has, so the client
/// can compute the not-yet-synced set.
#[derive(Debug)]
pub struct ManifestResponse {
    pub asset_ids: Vec<String>,
    pub count: usize,
}

/// A single item as presented to the web gallery / iOS Synced view.
#[derive(Debug)]
pub struct MediaListItem {
    /// Content id (sha256) used to fetch bytes/thumbnail.
    pub id: String,
    /// The client-side asset identifier.
    pub asset_id: String,
    pub filename: String,
    pub content_type: String,
    pub media_type: String,
    pub created_at: String,
    pub size: u64,
    /// Where the bytes live on disk, relative to the media root.
    pub rel_path: String,
    /// True if the server can render an image thumbnail for this item.
    pub thumbnailable: bool,
    /// True if a browser can display the *original* bytes directly.
    pub browser_displayable: bool,
    /// The MIME type `/media/:id` serves these bytes as.
    pub served_content_type: String,
}

/// One page of the gallery listing, newest first.
#[derive(Debug)]
pub struct MediaListResponse {
    pub items: Vec<MediaListItem>,
    /// Total number of items in the library, not just this page.
    pub count: usize,
    /// Offset this page started at.
    pub offset: usize,
    /// Maximum number of items this page could contain.
    pub limit: usize,
}

/// Paging parameters for the gallery listing. Both are optional so an old
/// client (or a hand-typed URL) still gets a sensible first page.
#[derive(Debug)]
pub struct PageQuery {
    pub offset: Option<usize>,
    pub limit: Option<usize>,
}

/// Metadata part of a chunk upload: which file (by full-content sha256) and
/// which chunk index this payload carries.
#[derive(Debug)]
pub struct ChunkMetadata {
    pub sha256: String,
    pub chunk_index: u32,
}

/// Acknowledgement that a single chunk was persisted.
#[derive(Debug)]
pub struct ChunkAck {
    pub received: u32,
    pub ok: bool,
}

/// Status of a chunked upload: whether the full content is already stored,
/// and which chunk indices the server currently holds.
#[derive(Debug)]
pub struct ChunkStatusResponse {
    pub stored: bool,
    pub received: Vec<u32>,
}

/// Finalize request: assemble the previously-uploaded chunks into the file.
#[derive(Debug)]
pub struct CompleteRequest {
    pub asset_id: String,
    pub filename: String,
    pub content_type: String,
    pub created_at: String,
    pub media_type: String,
    pub sha256: String,
    pub total_chunks: u32,
}

} // verus!
