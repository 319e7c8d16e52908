use imgdock::json::{parse_payload, parse_pending, render_payload, render_pending};
use imgdock::models::{ImageResponsePayload, PendingTransfer};
use imgdock::text::string_of_chars;
use imgdock::transfer::to_mb_hundredths;

#[test]
fn size_conversion_is_exact() {
    // 1 MiB persists as exactly 1.00 MB, 1.5 MiB as 1.50 MB.
    assert_eq!(to_mb_hundredths(1_048_576), 100);
    assert_eq!(to_mb_hundredths(1_572_864), 150);
    // 2,000,000 bytes is 1.9073... MB, rounded half-up to 1.91.
    assert_eq!(to_mb_hundredths(2_000_000), 191);
    // Rounding is half-up: half a hundredth rounds away from zero.
    assert_eq!(to_mb_hundredths(5_243), 1); // 0.00500... MB -> 0.01
    assert_eq!(to_mb_hundredths(0), 0);
}

#[test]
fn pending_record_renders_exactly() {
    let p = PendingTransfer {
        key: String::from("20240101/cat.png"),
        size: 2_000_000,
    };
    let json = string_of_chars(&render_pending(&p));
    assert_eq!(json, "{\"key\":\"20240101/cat.png\",\"size\":2000000}");
}

#[test]
fn pending_record_round_trips() {
    let p = PendingTransfer {
        key: String::from("20240101/we ird \"name\" \\slash.png"),
        size: u64::MAX,
    };
    let json = string_of_chars(&render_pending(&p));
    let q = parse_pending(&json).expect("round trip");
    assert_eq!(q.key, p.key);
    assert_eq!(q.size, p.size);
}

#[test]
fn corrupt_pending_record_is_rejected() {
    assert!(parse_pending("").is_none());
    assert!(parse_pending("{\"key\":\"a\",\"size\":01}").is_none());
    assert!(parse_pending("{\"key\":\"a\",\"size\":}").is_none());
    assert!(parse_pending("{\"key\":\"a\",\"size\":1} ").is_none());
    assert!(parse_pending("{\"key\":\"a\",\"size\":99999999999999999999999}").is_none());
}

fn sample_payload(s_hundredths: u64) -> ImageResponsePayload {
    ImageResponsePayload {
        url: String::from("https://pub.example/20240101%2Fcat.png"),
        f: String::from("20240101/cat.png"),
        s_hundredths,
        t: 1_700_000_000,
        d: String::new(),
        p: String::new(),
        c: None,
    }
}

#[test]
fn payload_renders_two_decimals_without_trailing_zero() {
    let json = string_of_chars(&render_payload(&sample_payload(191)));
    assert_eq!(
        json,
        "{\"url\":\"https://pub.example/20240101%2Fcat.png\",\"f\":\"20240101/cat.png\",\"s\":1.91,\"t\":1700000000,\"d\":\"\",\"p\":\"\"}"
    );
    let json = string_of_chars(&render_payload(&sample_payload(100)));
    assert!(json.contains("\"s\":1.0,"));
    let json = string_of_chars(&render_payload(&sample_payload(150)));
    assert!(json.contains("\"s\":1.5,"));
    let json = string_of_chars(&render_payload(&sample_payload(5)));
    assert!(json.contains("\"s\":0.05,"));
}

#[test]
fn payload_round_trips_and_keeps_fields() {
    let rec = sample_payload(191);
    let json = string_of_chars(&render_payload(&rec));
    let back = parse_payload(&json).expect("round trip");
    assert_eq!(back.url, rec.url);
    assert_eq!(back.f, rec.f);
    assert_eq!(back.s_hundredths, rec.s_hundredths);
    assert_eq!(back.t, rec.t);
    assert_eq!(back.d, rec.d);
    assert_eq!(back.p, rec.p);
    assert_eq!(back.c, None);
}

#[test]
fn payload_with_marker_round_trips() {
    let mut rec = sample_payload(150);
    rec.c = Some(1);
    let json = string_of_chars(&render_payload(&rec));
    assert!(json.ends_with(",\"c\":1}"));
    let back = parse_payload(&json).expect("round trip");
    assert_eq!(back.c, Some(1));
}

#[test]
fn corrupt_payload_is_rejected() {
    assert!(parse_payload("not json").is_none());
    assert!(parse_payload("{\"url\":\"u\",\"f\":\"f\",\"s\":1.910,\"t\":1,\"d\":\"\",\"p\":\"\"}").is_none());
    assert!(parse_payload("{\"url\":\"u\",\"f\":\"f\",\"s\":1.90,\"t\":1,\"d\":\"\",\"p\":\"\"}").is_none());
    assert!(parse_payload("{\"url\":\"u\",\"f\":\"f\",\"s\":1.9,\"t\":1,\"d\":\"\",\"p\":\"\",\"c\":2}").is_none());
}

#[test]
fn hex_codec_exact_values() {
    let bytes: Vec<u8> = vec![0xde, 0xad, 0x00, 0x0f];
    assert_eq!(imgdock::hexstr::hex_encode(&bytes), "dead000f");
    assert_eq!(imgdock::hexstr::hex_decode("dead000f"), Some(vec![0xde, 0xad, 0x00, 0x0f]));
    assert_eq!(imgdock::hexstr::hex_decode("DEAD000F"), Some(vec![0xde, 0xad, 0x00, 0x0f]));
    assert_eq!(imgdock::hexstr::hex_decode("abc"), None);
    assert_eq!(imgdock::hexstr::hex_decode("zz"), None);
}

#[test]
fn url_encoding_exact_value() {
    assert_eq!(imgdock::urlenc::url_encode("20240101/a b.png"), "20240101%2Fa%20b.png");
    assert_eq!(imgdock::urlenc::url_encode("safe-._~AZaz09"), "safe-._~AZaz09");
}

#[test]
fn date_partition_matches_gregorian() {
    assert_eq!(imgdock::calendar::instant_parts(0).0, "19700101");
    // 2023-11-14T22:13:20Z
    assert_eq!(imgdock::calendar::instant_parts(1_700_000_000).0, "20231114");
    // 2024-02-29T12:00:00Z, a leap day
    assert_eq!(imgdock::calendar::instant_parts(1_709_208_000).0, "20240229");
    // 2000-02-29T00:00:00Z, the century leap day
    assert_eq!(imgdock::calendar::instant_parts(951_782_400).0, "20000229");
    // 1999-12-31T23:59:59Z
    assert_eq!(imgdock::calendar::instant_parts(946_684_799).0, "19991231");
}

#[test]
fn chars_round_trip_through_strings() {
    let v = imgdock::text::chars_of("héllo ☃");
    assert_eq!(string_of_chars(&v), "héllo ☃");
}

#[test]
fn response_bodies_render_exactly() {
    let resp = imgdock::models::TransferResponse {
        ok: 1,
        id: String::from("aB3xYz"),
        upload_url: String::from("https://storage.example/k?sig=1"),
        key: String::from("20240101/cat.png"),
    };
    assert_eq!(
        imgdock::json::render_transfer_response(&resp),
        "{\"ok\":1,\"id\":\"aB3xYz\",\"uploadUrl\":\"https://storage.example/k?sig=1\",\"key\":\"20240101/cat.png\"}"
    );
    assert_eq!(
        imgdock::json::render_health(&imgdock::models::HealthResponse { ok: 1 }),
        "{\"ok\":1}"
    );
    let done = imgdock::models::CompleteResponse {
        ok: 1,
        id: String::from("aB3xYz"),
    };
    assert_eq!(
        imgdock::json::render_complete_response(&done),
        "{\"ok\":1,\"id\":\"aB3xYz\"}"
    );
}
