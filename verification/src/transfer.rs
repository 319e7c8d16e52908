//! Transfer session manager: the create → verify → commit lifecycle. The
//! functions here make every decision; the surrounding program only carries
//! out the storage, store and cache calls each plan asks for.

use vstd::prelude::*;
use crate::calendar::{instant_parts, spec_civil_from_days, spec_partition};
use crate::config::Config;
use crate::ident::{gen_id, is_id_char};
use crate::json::{
    spec_render_pending, spec_parse_pending, spec_render_payload, spec_parse_payload,
    spec_render_complete_response, render_pending, parse_pending, render_payload,
    lemma_pending_round_trip, lemma_payload_round_trip, PayloadParts, payload_parts_of,
};
use crate::models::{AppError, CompleteResponse, ImageResponsePayload, PendingTransfer, TransferRequest};
use crate::text::string_of_chars;
use crate::text::utf8_of;
use crate::urlenc::{url_encode, url_encoded};
use crate::validate::{validate_request, spec_valid_request, format_allowed};

verus! {

/// How long a pending record and its presigned URL stay valid, in seconds.
pub const PENDING_TTL_SECS: u64 = 300;

/// How long a read-path cache entry stays valid, in seconds.
pub const CACHE_TTL_SECS: u64 = 86400;

/// Everything a granted transfer needs done: the presign call for `key`
/// with `content_type`, the cache write of `pending_json` under
/// `pending_key`, and the reply around `id` and `key`.
pub struct TransferPlan {
    pub id: String,
    pub key: String,
    pub content_type: String,
    pub pending_key: String,
    pub pending_json: String,
    pub pending_ttl_secs: u64,
    pub url_ttl_secs: u64,
}

/// The cache key that guards a pending transfer.
pub fn pending_cache_key(id: &String) -> (r: String)
    ensures
        r@ == "pending:"@ + id@,
{
    String::from_str("pending:").concat(id.as_str())
}

/// The storage key for a named upload at an instant: the date partition,
/// a slash, then the client-supplied name.
pub open spec fn spec_storage_key(secs: u64, name: Seq<char>) -> Seq<char> {
    let (y, m, d) = spec_civil_from_days((secs / 86400) as nat);
    spec_partition(y, m, d) + "/"@ + name
}

/// Grants a transfer: validates the request, draws an identifier, derives
/// the storage key for the instant `secs`, and plans the pending record.
/// Errors exactly as the validation policy does.
pub fn create_transfer(config: &Config, req: &TransferRequest, secs: u64) -> (r: Result<
    TransferPlan,
    AppError,
>)
    requires
        config.wf(),
    ensures
        match r {
            Ok(plan) => {
                &&& spec_valid_request(*config, *req)
                &&& plan.id@.len() == 6
                &&& (forall|i: int| 0 <= i < 6 ==> is_id_char(plan.id@[i]))
                &&& plan.key@ == spec_storage_key(secs, req.name@)
                &&& plan.content_type@ == req.content_type@
                &&& plan.pending_key@ == "pending:"@ + plan.id@
                &&& plan.pending_json@ == spec_render_pending(plan.key@, req.size)
                &&& spec_parse_pending(plan.pending_json@) == Some((plan.key@, req.size))
                &&& plan.pending_ttl_secs == PENDING_TTL_SECS
                &&& plan.url_ttl_secs == PENDING_TTL_SECS
            },
            Err(e) => !spec_valid_request(*config, *req) && match e {
                AppError::BadRequest(_) => req.name@.len() == 0 || !format_allowed(
                    *config,
                    req.content_type@,
                ),
                AppError::LargePayload(_) => req.name@.len() > 0 && format_allowed(
                    *config,
                    req.content_type@,
                ) && req.size > config.max_size,
                _ => false,
            },
        },
{
    match validate_request(config, req) {
        Err(e) => Err(e),
        Ok(_) => {
            let id = gen_id();
            let (date, _ts) = instant_parts(secs);
            let key = date.concat("/").concat(req.name.as_str());
            proof {
                assert(key@ =~= spec_storage_key(secs, req.name@));
            }
            let pending = PendingTransfer { key: key.clone(), size: req.size };
            let pending_json = string_of_chars(&render_pending(&pending));
            let pending_key = pending_cache_key(&id);
            proof {
                lemma_pending_round_trip(key@, req.size);
            }
            Ok(
                TransferPlan {
                    id,
                    key,
                    content_type: req.content_type.clone(),
                    pending_key,
                    pending_json,
                    pending_ttl_secs: PENDING_TTL_SECS,
                    url_ttl_secs: PENDING_TTL_SECS,
                },
            )
        },
    }
}

/// Interprets the cache's answer for `pending:<id>`: an absent record is
/// `NotFound` (expired and never-created are indistinguishable on purpose),
/// a corrupt record is `Internal`, and otherwise the pending record.
pub fn complete_lookup(pending_json: Option<&String>) -> (r: Result<PendingTransfer, AppError>)
    ensures
        match r {
            Ok(p) => pending_json is Some && spec_parse_pending(pending_json->0@) == Some(
                (p.key@, p.size),
            ),
            Err(e) => match e {
                AppError::NotFound(m) => pending_json is None && m@
                    == "Transfer expired or not found"@,
                AppError::Internal(_) => pending_json is Some && spec_parse_pending(
                    pending_json->0@,
                ) is None,
                _ => false,
            },
        },
{
    match pending_json {
        None => Err(AppError::NotFound(String::from_str("Transfer expired or not found"))),
        Some(s) => match parse_pending(s.as_str()) {
            None => Err(AppError::Internal(String::from_str("Corrupt pending record"))),
            Some(p) => Ok(p),
        },
    }
}

/// The size a declared byte count persists as: hundredths of a megabyte,
/// rounded half-up to two decimals.
pub open spec fn mb_hundredths(bytes: nat) -> nat {
    (bytes * 100 + 524288) / 1048576
}

/// Converts a declared byte count to hundredths of a megabyte.
pub fn to_mb_hundredths(bytes: u64) -> (h: u64)
    ensures
        h as nat == mb_hundredths(bytes as nat),
{
    let wide: u128 = (bytes as u128) * 100 + 524288;
    let q: u128 = wide / 1048576;
    proof {
        assert(q <= 0xffff_ffff_ffff_ffff) by (nonlinear_arith)
            requires
                q == wide / 1048576,
                wide <= 0xffff_ffff_ffff_ffff_u128 * 100 + 524288,
        ;
    }
    q as u64
}

/// What the storage existence check reported: the object is present, it is
/// absent, or the check itself could not be carried out.
pub enum StorageCheck {
    Present,
    Absent,
    Failed(String),
}

/// Everything a verified completion needs done: the store insert of
/// `record`, the delete of `pending_key`, the best-effort cache write of
/// `cache_json` under `cache_key`, and the reply.
pub struct CommitPlan {
    pub record: ImageResponsePayload,
    pub cache_key: String,
    pub cache_json: String,
    pub cache_ttl_secs: u64,
    pub pending_key: String,
    pub response_body: String,
}

/// The final record's parts for a pending record committed at `secs`.
pub open spec fn spec_final_parts(
    config: Config,
    key: Seq<char>,
    size: u64,
    secs: u64,
) -> PayloadParts {
    PayloadParts {
        url: config.r2_public_domain@ + "/"@ + url_encoded(utf8_of(key)),
        f: key,
        s_hundredths: mb_hundredths(size as nat) as u64,
        t: secs,
        d: Seq::empty(),
        p: Seq::empty(),
        cached: false,
    }
}

/// Commits a verified completion: exactly when the object is present in
/// storage, builds the final record (size in megabytes rounded half-up to
/// two decimals, timestamp `secs`), the cache entry that parses back to it,
/// and the reply. An absent object is the client's fault; a failed check is
/// the storage collaborator's, wrapped with its prefix.
pub fn complete_commit(
    config: &Config,
    id: &String,
    pending: &PendingTransfer,
    check: StorageCheck,
    secs: u64,
) -> (r: Result<CommitPlan, AppError>)
    requires
        config.wf(),
    ensures
        match r {
            Ok(cp) => {
                &&& check is Present
                &&& payload_parts_of(cp.record) == spec_final_parts(
                    *config,
                    pending.key@,
                    pending.size,
                    secs,
                )
                &&& cp.cache_key@ == "i:"@ + id@
                &&& cp.cache_json@ == spec_render_payload(
                    spec_final_parts(*config, pending.key@, pending.size, secs),
                )
                &&& spec_parse_payload(cp.cache_json@) == Some(
                    spec_final_parts(*config, pending.key@, pending.size, secs),
                )
                &&& cp.cache_ttl_secs == CACHE_TTL_SECS
                &&& cp.pending_key@ == "pending:"@ + id@
                &&& cp.response_body@ == spec_render_complete_response(1, id@)
            },
            Err(e) => match e {
                AppError::BadRequest(m) => check is Absent && m@
                    == "File not uploaded to storage"@,
                AppError::Internal(m) => (check matches StorageCheck::Failed(cm) && m@
                    == "Storage: "@ + cm@),
                _ => false,
            },
        },
{
    match check {
        StorageCheck::Absent => {
            return Err(AppError::BadRequest(String::from_str("File not uploaded to storage")));
        },
        StorageCheck::Failed(cm) => {
            return Err(AppError::Internal(String::from_str("Storage: ").concat(cm.as_str())));
        },
        StorageCheck::Present => {},
    }
    let encoded = url_encode(pending.key.as_str());
    let url = config.r2_public_domain.clone().concat("/").concat(encoded.as_str());
    let record = ImageResponsePayload {
        url,
        f: pending.key.clone(),
        s_hundredths: to_mb_hundredths(pending.size),
        t: secs,
        d: String::new(),
        p: String::new(),
        c: None,
    };
    proof {
        assert(record.url@ =~= (config.r2_public_domain@ + "/"@) + url_encoded(
            utf8_of(pending.key@),
        ));
        assert(record.url@ =~= config.r2_public_domain@ + "/"@ + url_encoded(
            utf8_of(pending.key@),
        ));
        assert(payload_parts_of(record) == spec_final_parts(
            *config,
            pending.key@,
            pending.size,
            secs,
        ));
    }
    let cache_json = string_of_chars(&render_payload(&record));
    let cache_key = crate::lookup::image_cache_key(id);
    let pending_key = pending_cache_key(id);
    let response = CompleteResponse { ok: 1, id: id.clone() };
    let response_body = crate::json::render_complete_response(&response);
    proof {
        lemma_payload_round_trip(spec_final_parts(*config, pending.key@, pending.size, secs));
    }
    Ok(
        CommitPlan {
            record,
            cache_key,
            cache_json,
            cache_ttl_secs: CACHE_TTL_SECS,
            pending_key,
            response_body,
        },
    )
}

} // verus!
