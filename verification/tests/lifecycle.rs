use std::collections::HashMap;

use imgdock::config::Config;
use imgdock::json::parse_payload;
use imgdock::lookup::{get_image_from_cache, get_image_from_store, StoreRecord};
use imgdock::models::{AppError, TransferRequest};
use imgdock::transfer::{complete_commit, complete_lookup, create_transfer, StorageCheck};

fn lifecycle_config() -> Config {
    Config::new(
        String::from("https://storage.example"),
        String::from("bucket"),
        String::from("ak"),
        String::from("sk"),
        String::from("https://pub.example"),
        String::from("mongodb://localhost"),
        String::from("redis://localhost"),
        3000,
        99,
        (0u8..32).collect(),
        vec![
            String::from("image/jpeg"),
            String::from("image/png"),
            String::from("image/webp"),
            String::from("image/gif"),
        ],
    )
}

#[test]
fn created_transfer_has_id_shape_and_retrievable_pending_record() {
    let config = lifecycle_config();
    let req = TransferRequest {
        name: String::from("cat.png"),
        size: 2_000_000,
        content_type: String::from("image/png"),
    };
    let plan = create_transfer(&config, &req, 1_700_000_000).expect("valid request");
    assert_eq!(plan.id.len(), 6);
    assert!(plan.id.chars().all(|c| c.is_ascii_alphanumeric()));
    assert_eq!(plan.key, format!("20231114/{}", req.name));
    assert_eq!(plan.pending_key, format!("pending:{}", plan.id));
    assert_eq!(plan.pending_ttl_secs, 300);
    assert_eq!(plan.url_ttl_secs, 300);
    // The pending record written under pending:<id> reads back intact.
    let pending = imgdock::json::parse_pending(&plan.pending_json).expect("parses");
    assert_eq!(pending.key, plan.key);
    assert_eq!(pending.size, req.size);
}

#[test]
fn never_created_or_expired_completion_is_not_found() {
    match complete_lookup(None) {
        Err(AppError::NotFound(m)) => assert_eq!(m, "Transfer expired or not found"),
        _ => panic!("expected NotFound"),
    }
}

#[test]
fn completion_consumes_the_pending_record() {
    let config = lifecycle_config();
    let req = TransferRequest {
        name: String::from("cat.png"),
        size: 2_000_000,
        content_type: String::from("image/png"),
    };
    // A cache standing in for the pending-record store.
    let mut cache: HashMap<String, String> = HashMap::new();
    let plan = create_transfer(&config, &req, 1_700_000_000).expect("valid request");
    cache.insert(plan.pending_key.clone(), plan.pending_json.clone());

    // First completion: the pending record is there and the object exists.
    let pending = complete_lookup(cache.get(&plan.pending_key)).expect("pending present");
    let commit = complete_commit(&config, &plan.id, &pending, StorageCheck::Present, 1_700_000_100)
        .expect("object exists");
    cache.remove(&commit.pending_key);

    // Second completion: the record is consumed.
    match complete_lookup(cache.get(&plan.pending_key)) {
        Err(AppError::NotFound(_)) => {}
        _ => panic!("second completion must be NotFound"),
    }
}

#[test]
fn completion_without_upload_is_bad_request() {
    let config = lifecycle_config();
    let pending = imgdock::models::PendingTransfer {
        key: String::from("20231114/cat.png"),
        size: 2_000_000,
    };
    match complete_commit(&config, &String::from("abc123"), &pending, StorageCheck::Absent, 1_700_000_100) {
        Err(AppError::BadRequest(m)) => assert_eq!(m, "File not uploaded to storage"),
        _ => panic!("expected BadRequest"),
    }
}

#[test]
fn failed_existence_check_is_internal() {
    let config = lifecycle_config();
    let pending = imgdock::models::PendingTransfer {
        key: String::from("20231114/cat.png"),
        size: 2_000_000,
    };
    let check = StorageCheck::Failed(String::from("connect timed out"));
    match complete_commit(&config, &String::from("abc123"), &pending, check, 1_700_000_100) {
        Err(AppError::Internal(m)) => assert_eq!(m, "Storage: connect timed out"),
        _ => panic!("expected Internal"),
    }
}

#[test]
fn retrieval_is_idempotent_in_content() {
    let config = lifecycle_config();
    let id = String::from("abc123");
    let rec = StoreRecord {
        f: String::from("20231114/cat.png"),
        s_hundredths: 191,
        t: 1_700_000_100,
        d: String::new(),
        p: String::new(),
    };

    // First retrieval: store path, no cache-hit marker.
    let plan = get_image_from_store(&config, &id, Some(rec)).expect("record found");
    assert_eq!(plan.cache_key, "i:abc123");
    assert_eq!(plan.cache_ttl_secs, 86400);
    let first = decrypt_body(&config, &plan.response_body);
    assert_eq!(first.c, None);

    // Second retrieval: cache path, same fields, marker set.
    let body = get_image_from_cache(&config, Some(&plan.cache_json))
        .expect("no failure")
        .expect("cache hit");
    let second = decrypt_body(&config, &body);
    assert_eq!(second.url, first.url);
    assert_eq!(second.f, first.f);
    assert_eq!(second.s_hundredths, first.s_hundredths);
    assert_eq!(second.t, first.t);
    assert_eq!(second.d, first.d);
    assert_eq!(second.p, first.p);
    assert_eq!(second.c, Some(1));
}

#[test]
fn missing_record_is_not_found() {
    let config = lifecycle_config();
    match get_image_from_store(&config, &String::from("zzzzzz"), None) {
        Err(AppError::NotFound(m)) => assert_eq!(m, "Image not found"),
        _ => panic!("expected NotFound"),
    }
}

#[test]
fn corrupt_cache_entry_is_a_miss() {
    let config = lifecycle_config();
    let garbage = String::from("{{{ not a record");
    let r = get_image_from_cache(&config, Some(&garbage)).expect("never an error");
    assert!(r.is_none());
}

#[test]
fn end_to_end_scenario() {
    let config = lifecycle_config();
    let req = TransferRequest {
        name: String::from("cat.png"),
        size: 2_000_000,
        content_type: String::from("image/png"),
    };
    let mut cache: HashMap<String, String> = HashMap::new();
    let mut store: HashMap<String, StoreRecord> = HashMap::new();

    // Create: a 6-character id and a non-empty upload URL.
    let plan = create_transfer(&config, &req, 1_700_000_000).expect("valid request");
    assert_eq!(plan.id.len(), 6);
    let upload_url = format!("https://storage.example/{}?sig=deadbeef", plan.key);
    assert!(!upload_url.is_empty());
    cache.insert(plan.pending_key.clone(), plan.pending_json.clone());

    // Complete, simulating an existing object.
    let pending = complete_lookup(cache.get(&plan.pending_key)).expect("pending present");
    let commit = complete_commit(&config, &plan.id, &pending, StorageCheck::Present, 1_700_000_100)
        .expect("object exists");
    assert_eq!(commit.response_body, format!("{{\"ok\":1,\"id\":\"{}\"}}", plan.id));
    store.insert(
        plan.id.clone(),
        StoreRecord {
            f: commit.record.f.clone(),
            s_hundredths: commit.record.s_hundredths,
            t: commit.record.t,
            d: commit.record.d.clone(),
            p: commit.record.p.clone(),
        },
    );
    cache.remove(&commit.pending_key);
    cache.insert(commit.cache_key.clone(), commit.cache_json.clone());

    // Retrieve from the store path: s is 1.91 MB, no cache-hit flag.
    let cache_key = format!("i:{}", plan.id);
    cache.remove(&cache_key);
    let rec = store.remove(&plan.id).expect("stored");
    let lookup = get_image_from_store(&config, &plan.id, Some(rec)).expect("found");
    let first = decrypt_body(&config, &lookup.response_body);
    assert_eq!(first.s_hundredths, 191);
    assert_eq!(first.f, format!("20231114/{}", req.name));
    assert_eq!(first.c, None);
    cache.insert(lookup.cache_key.clone(), lookup.cache_json.clone());

    // Retrieve again from the cache path: same record, flag set.
    let body = get_image_from_cache(&config, cache.get(&cache_key))
        .expect("no failure")
        .expect("cache hit");
    let second = decrypt_body(&config, &body);
    assert_eq!(second.url, first.url);
    assert_eq!(second.s_hundredths, 191);
    assert_eq!(second.c, Some(1));
}

/// Opens an obfuscated reply body: extracts the hex envelope, decrypts it,
/// and parses the payload record inside.
fn decrypt_body(config: &Config, body: &str) -> imgdock::models::ImageResponsePayload {
    let prefix = "{\"ok\":1,\"payload\":\"";
    assert!(body.starts_with(prefix), "unexpected body: {body}");
    assert!(body.ends_with("\"}"));
    let hex = &body[prefix.len()..body.len() - 2];
    let plain = imgdock::cipher::decrypt_payload(hex, &config.encryption_key).expect("decrypts");
    let json = String::from_utf8(plain).expect("utf8");
    parse_payload(&json).expect("payload parses")
}
