use fleet_monitor::clock::now_iso;
use fleet_monitor::event::{alert_id, event_id};
use fleet_monitor::http::{
    accepted_body, api_key_ok, bytes_response, content_type_for, error_body, health_body,
    json_response, route_of, str_ends_with, str_eq, Route,
};
use fleet_monitor::jsonout::{i64_to_dec, json_string};
use fleet_monitor::status::{status_norm, Status};
use fleet_monitor::text::{micro_to_text, parse_micro_text, truncate_chars, u64_to_dec};

#[test]
fn test_now_iso_returns_nonempty_rfc3339() {
    let result = now_iso();
    assert!(!result.is_empty());
    assert!(result.contains('T'));
    assert!(result.ends_with('Z') || result.contains('+'));
}

#[test]
fn test_status_norm_error() {
    assert_eq!(status_norm("error"), "error");
    assert_eq!(status_norm("ERROR"), "error");
    assert_eq!(status_norm("Error"), "error");
}

#[test]
fn test_status_norm_warning() {
    assert_eq!(status_norm("warning"), "warning");
    assert_eq!(status_norm("WARNING"), "warning");
    assert_eq!(status_norm("Warning"), "warning");
}

#[test]
fn test_status_norm_ok_default() {
    assert_eq!(status_norm("ok"), "ok");
    assert_eq!(status_norm(""), "ok");
    assert_eq!(status_norm("success"), "ok");
    assert_eq!(status_norm("anything"), "ok");
}

#[test]
fn test_status_parse_roundtrip() {
    assert_eq!(Status::parse("WARNING"), Status::Warning);
    assert_eq!(Status::parse("ok").text(), "ok");
    assert_eq!(Status::parse("nonsense"), Status::Okay);
}

#[test]
fn test_json_response_format() {
    let resp = json_response("200 OK", r#"{"ok":true}"#);
    let text = String::from_utf8(resp).unwrap();
    assert!(text.starts_with("HTTP/1.1 200 OK\r\n"));
    assert!(text.contains("Content-Type: application/json"));
    assert!(text.contains("Content-Length: 11"));
    assert!(text.ends_with(r#"{"ok":true}"#));
}

#[test]
fn test_json_response_404() {
    let resp = json_response("404 Not Found", r#"{"error":"nope"}"#);
    let text = String::from_utf8(resp).unwrap();
    assert!(text.starts_with("HTTP/1.1 404 Not Found\r\n"));
    assert!(text.contains(r#"{"error":"nope"}"#));
}

#[test]
fn test_bytes_response_format() {
    let body = b"hello world";
    let resp = bytes_response("200 OK", body, "text/plain");
    let text = String::from_utf8(resp).unwrap();
    assert!(text.starts_with("HTTP/1.1 200 OK\r\n"));
    assert!(text.contains("Content-Type: text/plain"));
    assert!(text.contains("Content-Length: 11"));
    assert!(text.ends_with("hello world"));
}

#[test]
fn test_content_type_for_html() {
    assert_eq!(content_type_for("index.html"), "text/html; charset=utf-8");
}

#[test]
fn test_content_type_for_css() {
    assert_eq!(content_type_for("style.css"), "text/css; charset=utf-8");
}

#[test]
fn test_content_type_for_js() {
    assert_eq!(
        content_type_for("app.js"),
        "application/javascript; charset=utf-8"
    );
}

#[test]
fn test_content_type_for_json() {
    assert_eq!(
        content_type_for("data.json"),
        "application/json; charset=utf-8"
    );
}

#[test]
fn test_content_type_for_unknown() {
    assert_eq!(content_type_for("file.bin"), "application/octet-stream");
    assert_eq!(content_type_for("archive.tar"), "application/octet-stream");
}

#[test]
fn test_decimal_rendering() {
    assert_eq!(u64_to_dec(0), "0");
    assert_eq!(u64_to_dec(7), "7");
    assert_eq!(u64_to_dec(120), "120");
    assert_eq!(u64_to_dec(18446744073709551615), "18446744073709551615");
    assert_eq!(i64_to_dec(-42), "-42");
    assert_eq!(i64_to_dec(-9223372036854775808), "-9223372036854775808");
}

#[test]
fn test_micro_parsing() {
    assert_eq!(parse_micro_text("1.5"), Some(1_500_000));
    assert_eq!(parse_micro_text("0.05"), Some(50_000));
    assert_eq!(parse_micro_text("3"), Some(3_000_000));
    assert_eq!(parse_micro_text("0.1234567"), Some(123_456));
    assert_eq!(parse_micro_text("2."), Some(2_000_000));
    assert_eq!(parse_micro_text(".25"), Some(250_000));
    assert_eq!(parse_micro_text(""), None);
    assert_eq!(parse_micro_text("."), None);
    assert_eq!(parse_micro_text("-1"), None);
    assert_eq!(parse_micro_text("1234567890123"), None);
}

#[test]
fn test_micro_parsing_exponent_forms() {
    assert_eq!(parse_micro_text("1.5e3"), Some(1_500_000_000));
    assert_eq!(parse_micro_text("1e+2"), Some(100_000_000));
    assert_eq!(parse_micro_text("2E-2"), Some(20_000));
    // below a micro-unit the value truncates to zero
    assert_eq!(parse_micro_text("1e-7"), Some(0));
    assert_eq!(parse_micro_text("1.23e-7"), Some(0));
    // out of the counter's range
    assert_eq!(parse_micro_text("5e22"), None);
    // a marker without digits, or digits without a mantissa
    assert_eq!(parse_micro_text("1e"), None);
    assert_eq!(parse_micro_text("e3"), None);
}

#[test]
fn test_micro_rendering() {
    assert_eq!(micro_to_text(1_500_000), "1.500000");
    assert_eq!(micro_to_text(50_000), "0.050000");
    assert_eq!(micro_to_text(0), "0.000000");
}

#[test]
fn test_truncation_by_code_points() {
    assert_eq!(truncate_chars("hello", 120), "hello");
    let long = "a".repeat(200);
    assert_eq!(truncate_chars(&long, 120).len(), 120);
    // multi-byte characters count once each
    assert_eq!(truncate_chars("ééééé", 3), "ééé");
}

#[test]
fn test_json_string_escaping() {
    assert_eq!(json_string("plain"), "\"plain\"");
    assert_eq!(json_string("a\"b\\c\nd"), "\"a\\\"b\\\\c\\nd\"");
    assert_eq!(json_string("\t\r"), "\"\\t\\r\"");
    assert_eq!(json_string("\u{1}"), "\"\\u0001\"");
}

#[test]
fn test_id_rendering() {
    assert_eq!(event_id(1), "e1");
    assert_eq!(event_id(42), "e42");
    assert_eq!(alert_id(7), "a7");
}

#[test]
fn test_response_bodies() {
    assert_eq!(
        health_body("2025-01-01T00:00:00Z"),
        "{\"now\":\"2025-01-01T00:00:00Z\",\"ok\":true}"
    );
    assert_eq!(accepted_body("e1"), "{\"accepted\":true,\"id\":\"e1\"}");
    assert_eq!(error_body("Invalid JSON"), "{\"error\":\"Invalid JSON\"}");
}

#[test]
fn test_routing_table() {
    assert_eq!(route_of("GET", "/api/health"), Route::Health);
    assert_eq!(route_of("GET", "/api/events"), Route::EventsGet);
    assert_eq!(route_of("GET", "/api/alerts"), Route::AlertsGet);
    assert_eq!(route_of("GET", "/api/stream"), Route::Stream);
    assert_eq!(route_of("POST", "/api/events"), Route::EventsPost);
    assert_eq!(route_of("GET", "/index.html"), Route::StaticGet);
    assert_eq!(route_of("DELETE", "/api/events"), Route::NotAllowed);
    assert_eq!(route_of("POST", "/api/health"), Route::NotAllowed);
}

#[test]
fn test_api_key_check() {
    let secret = Some("secret123".to_string());
    assert!(api_key_ok(&None, &None));
    assert!(api_key_ok(&None, &Some(b"anything".to_vec())));
    assert!(api_key_ok(&secret, &Some(b"secret123".to_vec())));
    assert!(!api_key_ok(&secret, &Some(b"wrong".to_vec())));
    assert!(!api_key_ok(&secret, &None));
}

#[test]
fn test_string_helpers() {
    assert!(str_eq("abc", "abc"));
    assert!(!str_eq("abc", "abd"));
    assert!(str_ends_with("index.html", ".html"));
    assert!(!str_ends_with("html", "index.html"));
}
