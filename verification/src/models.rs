//! Plain request and response shapes of the HTTP surface. The process
//! around the library serializes them; the library fills them in.

use vstd::prelude::*;

verus! {

/// One row of the file listing.
pub struct FileItem {
    pub id: String,
    pub name: String,
    pub file_type: String,
    pub size: u64,
    pub uploaded_at: String,
    pub status: String,
    pub crs: Option<String>,
    pub path: String,
    pub table_name: Option<String>,
    pub error: Option<String>,
    pub is_public: Option<bool>,
    pub public_slug: Option<String>,
}

/// The uniform error body.
pub struct ErrorResponse {
    pub error: String,
}

/// One property column in a schema response.
pub struct FieldInfo {
    pub name: String,
    pub data_type: String,
}

/// One layer of a schema response.
pub struct LayerInfo {
    pub id: String,
    pub description: Option<String>,
    pub fields: Vec<FieldInfo>,
}

/// The schema of a ready dataset: its property columns in ordinal order.
pub struct FileSchemaResponse {
    pub fields: Vec<FieldInfo>,
}

/// The body of a publish request.
pub struct PublishRequest {
    pub slug: Option<String>,
}

/// The body of a successful publish response.
pub struct PublishResponse {
    pub url: String,
    pub slug: String,
    pub is_public: bool,
}

/// The public tile URL of a published file.
pub struct PublicTileUrl {
    pub slug: String,
    pub url: String,
}

/// A login request body.
pub struct LoginRequest {
    pub username: String,
    pub password: String,
}

/// The one-time initialization request body.
pub struct InitRequest {
    pub username: String,
    pub password: String,
}

/// Who is logged in.
pub struct LoginResponse {
    pub username: String,
    pub role: String,
}

/// The one-time initialization response body.
pub struct InitResponse {
    pub message: String,
}

/// Metadata read from an MBTiles archive's metadata table.
pub struct MbtilesMetadata {
    pub format: String,
    pub bounds: Option<String>,
    pub center: Option<String>,
    pub minzoom: Option<i32>,
    pub maxzoom: Option<i32>,
    pub name: Option<String>,
}

} // verus!
