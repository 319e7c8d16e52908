//! Lookup cache-aside layer: a retrieval is served from the cache when its
//! entry parses, and otherwise from the store, whose answer is projected,
//! written back to the cache best-effort, and returned. Cache content is
//! advisory: an entry that does not parse is a miss, never an error.

use vstd::prelude::*;
use crate::cipher::{encrypt_payload, spec_envelope, GCM_P_MAX};
use crate::config::Config;
use crate::json::{
    spec_render_payload, spec_parse_payload, spec_render_obfuscated, render_payload,
    parse_payload, render_obfuscated, lemma_payload_round_trip, PayloadParts, payload_parts_of,
};
use crate::models::{AppError, ImageResponsePayload};
use crate::text::string_of_chars;
use crate::transfer::CACHE_TTL_SECS;
use crate::text::utf8_of;
use crate::urlenc::{url_encode, url_encoded};

verus! {

/// The obfuscated reply body for a serialized payload: some fresh-nonce hex
/// envelope of it under the key, inside the reply shape.
pub open spec fn is_obfuscated_body_of(body: Seq<char>, key: Seq<u8>, payload: Seq<char>) -> bool {
    exists|nonce: Seq<u8>, pb: Seq<u8>|
        nonce.len() == 12 && body == spec_render_obfuscated(
            1,
            spec_envelope(key, nonce, pb),
        )
        // the envelope wraps the UTF-8 bytes of the serialized payload
         && pb == utf8_of(payload)
}

/// Serializes a payload record and encrypts it into the obfuscated reply;
/// fails only on a record whose rendering exceeds the cipher's length limit.
fn obfuscate(config: &Config, record: &ImageResponsePayload) -> (r: Result<String, AppError>)
    requires
        config.wf(),
    ensures
        match r {
            Ok(body) => is_obfuscated_body_of(
                body@,
                config.encryption_key@,
                spec_render_payload(payload_parts_of(*record)),
            ),
            Err(e) => e is Internal && 4 * spec_render_payload(payload_parts_of(*record)).len()
                > GCM_P_MAX,
        },
{
    let json = string_of_chars(&render_payload(record));
    match encrypt_payload(json.as_str(), &config.encryption_key) {
        Err(e) => Err(e),
        Ok(hex) => {
            let body = render_obfuscated(1, hex.as_str());
            proof {
                assert(json@ == spec_render_payload(payload_parts_of(*record)));
            }
            Ok(body)
        },
    }
}

/// Serves a retrieval from the cache, if its entry parses: the entry's
/// fields come back unchanged but for the cache-hit marker, encrypted into
/// the obfuscated reply. An absent or unparsable entry is a miss; an error
/// is possible only for an entry beyond the cipher's length limit.
pub fn get_image_from_cache(config: &Config, cached: Option<&String>) -> (r: Result<
    Option<String>,
    AppError,
>)
    requires
        config.wf(),
    ensures
        match r {
            Ok(body_opt) => match body_opt {
                Some(body) => {
                    &&& cached is Some
                    &&& spec_parse_payload(cached->0@) is Some
                    &&& is_obfuscated_body_of(
                        body@,
                        config.encryption_key@,
                        spec_render_payload(
                            PayloadParts {
                                cached: true,
                                ..spec_parse_payload(cached->0@)->0
                            },
                        ),
                    )
                },
                None => cached is None || spec_parse_payload(cached->0@) is None,
            },
            Err(e) => e is Internal && cached is Some && spec_parse_payload(cached->0@) is Some
                && 4 * spec_render_payload(
                PayloadParts { cached: true, ..spec_parse_payload(cached->0@)->0 },
            ).len() > GCM_P_MAX,
        },
{
    let s = match cached {
        None => {
            return Ok(None);
        },
        Some(s) => s,
    };
    let parsed = match parse_payload(s.as_str()) {
        None => {
            return Ok(None);
        },
        Some(p) => p,
    };
    let hit = ImageResponsePayload { c: Some(1u8), ..parsed };
    proof {
        assert(payload_parts_of(hit) == PayloadParts {
            cached: true,
            ..spec_parse_payload(cached->0@)->0
        });
    }
    match obfuscate(config, &hit) {
        Err(e) => Err(e),
        Ok(body) => Ok(Some(body)),
    }
}

/// The read-path cache key for an identifier.
pub fn image_cache_key(id: &String) -> (r: String)
    ensures
        r@ == "i:"@ + id@,
{
    String::from_str("i:").concat(id.as_str())
}

/// What the store hands back for an identifier, as plain values: the
/// storage key, the size in hundredths of a megabyte, the timestamp, and
/// the two reserved fields.
pub struct StoreRecord {
    pub f: String,
    pub s_hundredths: u64,
    pub t: u64,
    pub d: String,
    pub p: String,
}

/// The projection of a store record: the derived public URL and the
/// persisted fields, without the cache-hit marker.
pub open spec fn spec_store_parts(config: Config, rec: StoreRecord) -> PayloadParts {
    PayloadParts {
        url: config.r2_public_domain@ + "/"@ + url_encoded(utf8_of(rec.f@)),
        f: rec.f@,
        s_hundredths: rec.s_hundredths,
        t: rec.t,
        d: rec.d@,
        p: rec.p@,
        cached: false,
    }
}

/// Everything a store-served retrieval needs done: the best-effort cache
/// write of `cache_json` under `cache_key`, and the reply.
pub struct LookupPlan {
    pub cache_key: String,
    pub cache_json: String,
    pub cache_ttl_secs: u64,
    pub response_body: String,
}

/// Serves a retrieval from the store's answer: an absent record is
/// `NotFound`; otherwise the projection is planned as a cache entry that
/// parses back to itself, and encrypted into the obfuscated reply without
/// the cache-hit marker — owed, unless the record's rendering exceeds the
/// cipher's length limit.
pub fn get_image_from_store(config: &Config, id: &String, found: Option<StoreRecord>) -> (r:
    Result<LookupPlan, AppError>)
    requires
        config.wf(),
    ensures
        match r {
            Ok(plan) => {
                &&& found is Some
                &&& plan.cache_key@ == "i:"@ + id@
                &&& plan.cache_json@ == spec_render_payload(spec_store_parts(*config, found->0))
                &&& spec_parse_payload(plan.cache_json@) == Some(
                    spec_store_parts(*config, found->0),
                )
                &&& plan.cache_ttl_secs == CACHE_TTL_SECS
                &&& is_obfuscated_body_of(
                    plan.response_body@,
                    config.encryption_key@,
                    spec_render_payload(spec_store_parts(*config, found->0)),
                )
            },
            Err(e) => match e {
                AppError::NotFound(m) => found is None && m@ == "Image not found"@,
                AppError::Internal(_) => found is Some && 4 * spec_render_payload(
                    spec_store_parts(*config, found->0),
                ).len() > GCM_P_MAX,
                _ => false,
            },
        },
{
    let rec = match found {
        None => {
            return Err(AppError::NotFound(String::from_str("Image not found")));
        },
        Some(rec) => rec,
    };
    let encoded = url_encode(rec.f.as_str());
    let url = config.r2_public_domain.clone().concat("/").concat(encoded.as_str());
    let record = ImageResponsePayload {
        url,
        f: rec.f,
        s_hundredths: rec.s_hundredths,
        t: rec.t,
        d: rec.d,
        p: rec.p,
        c: None,
    };
    proof {
        assert(record.url@ =~= config.r2_public_domain@ + "/"@ + url_encoded(
            utf8_of(record.f@),
        ));
        assert(payload_parts_of(record) == spec_store_parts(*config, found->0));
        lemma_payload_round_trip(payload_parts_of(record));
    }
    let cache_json = string_of_chars(&render_payload(&record));
    let cache_key = image_cache_key(id);
    match obfuscate(config, &record) {
        Err(e) => Err(e),
        Ok(body) => Ok(
            LookupPlan {
                cache_key,
                cache_json,
                cache_ttl_secs: CACHE_TTL_SECS,
                response_body: body,
            },
        ),
    }
}

/// Retrieval is idempotent in content: the cache entry that a store-served
/// retrieval writes parses back to exactly the record it served, so a
/// second retrieval answered from that entry returns the same `url`, `f`,
/// `s`, `t`, `d` and `p` fields, and differs only in the cache-hit marker.
pub proof fn lemma_lookup_idempotent(config: Config, rec: StoreRecord)
    ensures
        ({
            let parts = spec_store_parts(config, rec);
            let reread = spec_parse_payload(spec_render_payload(parts));
            &&& reread is Some
            &&& reread->0.url == parts.url
            &&& reread->0.f == parts.f
            &&& reread->0.s_hundredths == parts.s_hundredths
            &&& reread->0.t == parts.t
            &&& reread->0.d == parts.d
            &&& reread->0.p == parts.p
            &&& !reread->0.cached
        }),
{
    lemma_payload_round_trip(spec_store_parts(config, rec));
}

} // verus!
