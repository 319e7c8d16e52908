//! Record and response shapes of the transfer broker, and its error taxonomy.

use vstd::prelude::*;

verus! {

/// A client's request to authorize one upload.
pub struct TransferRequest {
    pub name: String,
    pub size: u64,
    pub content_type: String,
}

/// The ephemeral record held while an authorized upload awaits confirmation:
/// the storage key the presigned URL was issued for, and the declared size.
pub struct PendingTransfer {
    pub key: String,
    pub size: u64,
}

/// Reply to a successful transfer creation.
pub struct TransferResponse {
    pub ok: u8,
    pub id: String,
    pub upload_url: String,
    pub key: String,
}

/// Reply to a successful completion.
pub struct CompleteResponse {
    pub ok: u8,
    pub id: String,
}

/// The projection of a final record served on the read path.
/// `s_hundredths` holds the persisted size in hundredths of a megabyte, so
/// the two-decimal fraction is exact without floating point; `t` is the
/// creation time in epoch seconds; `d` and `p` are reserved free-text fields;
/// `c` is the transient cache-hit marker, never persisted.
pub struct ImageResponsePayload {
    pub url: String,
    pub f: String,
    pub s_hundredths: u64,
    pub t: u64,
    pub d: String,
    pub p: String,
    pub c: Option<u8>,
}

/// The plain (non-obfuscated) shape of a retrieval reply.
pub struct ImageResponse {
    pub ok: u8,
    pub url: String,
    pub c: Option<u8>,
}

/// Reply of the health probe.
pub struct HealthResponse {
    pub ok: u8,
}

/// The error taxonomy: client input invalid, record missing, declared size
/// over the ceiling, or a collaborator failure.
#[derive(Debug)]
pub enum AppError {
    BadRequest(String),
    NotFound(String),
    Internal(String),
    LargePayload(String),
}

impl AppError {
    /// The HTTP status that this error surfaces as.
    pub open spec fn spec_status_code(&self) -> u16 {
        match self {
            AppError::BadRequest(_) => 400,
            AppError::NotFound(_) => 404,
            AppError::Internal(_) => 500,
            AppError::LargePayload(_) => 413,
        }
    }

    pub fn status_code(&self) -> (c: u16)
        ensures
            c == self.spec_status_code(),
    {
        match self {
            AppError::BadRequest(_) => 400,
            AppError::NotFound(_) => 404,
            AppError::Internal(_) => 500,
            AppError::LargePayload(_) => 413,
        }
    }

    /// The client-visible message: a category prefix, then the detail.
    pub open spec fn spec_message(&self) -> Seq<char> {
        match self {
            AppError::BadRequest(e) => "Bad Request: "@ + e@,
            AppError::NotFound(e) => "Not Found: "@ + e@,
            AppError::Internal(e) => "Internal Error: "@ + e@,
            AppError::LargePayload(e) => "Payload Too Large: "@ + e@,
        }
    }

    pub fn message(&self) -> (m: String)
        ensures
            m@ == self.spec_message(),
    {
        match self {
            AppError::BadRequest(e) => String::from_str("Bad Request: ").concat(e.as_str()),
            AppError::NotFound(e) => String::from_str("Not Found: ").concat(e.as_str()),
            AppError::Internal(e) => String::from_str("Internal Error: ").concat(e.as_str()),
            AppError::LargePayload(e) => String::from_str("Payload Too Large: ").concat(
                e.as_str(),
            ),
        }
    }
}

} // verus!
