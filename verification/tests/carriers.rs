use opentelemetry::api::{
    Context, CorrelationContextExt, CorrelationContextPropagator, Extractor, Injector, Key,
    KeyValue, TextMapFormat, Value,
};
use std::collections::HashMap;

#[test]
fn http_headers() {
    let mut carrier = http::HeaderMap::new();
    carrier.set("headerName", "value".to_string());

    assert_eq!(
        Extractor::get(&carrier, "HEADERNAME"),
        Some("value"),
        "case insensitive extraction"
    )
}

#[test]
fn tonic_headers() {
    let mut carrier = tonic::metadata::MetadataMap::new();
    carrier.set("headerName", "value".to_string());

    assert_eq!(
        Extractor::get(&carrier, "HEADERNAME"),
        Some("value"),
        "case insensitive extraction"
    )
}

#[test]
fn hash_map_files_fields_in_lower_case() {
    let mut carrier: HashMap<String, String> = HashMap::new();
    carrier.set("HeaderName", "value".to_string());

    assert_eq!(carrier.len(), 1);
    assert_eq!(carrier.get("headername").map(|v| v.as_str()), Some("value"));
    assert_eq!(Extractor::get(&carrier, "HEADERNAME"), Some("value"));
    assert_eq!(Extractor::get(&carrier, "other"), None);
}

#[test]
fn hash_map_set_overwrites() {
    let mut carrier: HashMap<String, String> = HashMap::new();
    carrier.set("x", "first".to_string());
    carrier.set("X", "second".to_string());

    assert_eq!(carrier.len(), 1);
    assert_eq!(Extractor::get(&carrier, "x"), Some("second"));
}

#[test]
fn hash_map_reads_only_lower_case_entries() {
    let mut carrier: HashMap<String, String> = HashMap::new();
    carrier.insert("Mixed".to_string(), "hidden".to_string());

    assert_eq!(Extractor::get(&carrier, "Mixed"), None);
    assert_eq!(Extractor::get(&carrier, "mixed"), None);
}

#[test]
fn http_headers_drop_invalid_names() {
    let mut carrier = http::HeaderMap::new();
    carrier.set("bad name", "value".to_string());
    carrier.set("", "value".to_string());

    assert!(carrier.is_empty());
    assert_eq!(Extractor::get(&carrier, "bad name"), None);
}

#[test]
fn http_headers_drop_invalid_values() {
    let mut carrier = http::HeaderMap::new();
    carrier.set("name", "line\nbreak".to_string());

    assert!(carrier.is_empty());
    assert_eq!(Extractor::get(&carrier, "name"), None);
}

#[test]
fn http_headers_set_overwrites_all_values() {
    let mut carrier = http::HeaderMap::new();
    carrier.append("name", http::HeaderValue::from_static("one"));
    carrier.append("name", http::HeaderValue::from_static("two"));
    carrier.set("Name", "three".to_string());

    assert_eq!(carrier.len(), 1);
    assert_eq!(Extractor::get(&carrier, "name"), Some("three"));
}

#[test]
fn http_headers_get_gives_first_value() {
    let mut carrier = http::HeaderMap::new();
    carrier.append("name", http::HeaderValue::from_static("one"));
    carrier.append("name", http::HeaderValue::from_static("two"));

    assert_eq!(Extractor::get(&carrier, "NAME"), Some("one"));
}

#[test]
fn http_headers_hide_values_that_are_not_visible_text() {
    let mut carrier = http::HeaderMap::new();
    carrier.set("name", "caf\u{e9}".to_string());

    assert_eq!(carrier.len(), 1);
    assert_eq!(Extractor::get(&carrier, "name"), None);

    carrier.set("name", "plain\ttext".to_string());
    assert_eq!(Extractor::get(&carrier, "name"), Some("plain\ttext"));
}

#[test]
fn tonic_headers_drop_invalid_input() {
    let mut carrier = tonic::metadata::MetadataMap::new();
    carrier.set("bad name", "value".to_string());
    carrier.set("name", "line\nbreak".to_string());

    assert!(carrier.is_empty());
    assert_eq!(Extractor::get(&carrier, "name"), None);
}

#[test]
fn tonic_headers_drop_binary_keys() {
    let mut carrier = tonic::metadata::MetadataMap::new();
    carrier.set("trace-bin", "value".to_string());
    carrier.set("TRACE-BIN", "value".to_string());

    assert!(carrier.is_empty());
    assert_eq!(Extractor::get(&carrier, "trace-bin"), None);
}

#[test]
fn tonic_headers_set_overwrites() {
    let mut carrier = tonic::metadata::MetadataMap::new();
    carrier.set("name", "one".to_string());
    carrier.set("NAME", "two".to_string());

    assert_eq!(carrier.len(), 1);
    assert_eq!(Extractor::get(&carrier, "Name"), Some("two"));
}

#[test]
fn http_headers_take_every_value_without_control_characters() {
    let mut carrier = http::HeaderMap::new();
    carrier.set("a", "\u{7f}".to_string());
    carrier.set("b", "\u{1f}".to_string());
    carrier.set("c", "\u{0}".to_string());
    assert!(carrier.is_empty());

    carrier.set("d", "".to_string());
    carrier.set("e", " ~\t".to_string());
    assert_eq!(carrier.len(), 2);
    assert_eq!(Extractor::get(&carrier, "d"), Some(""));
    assert_eq!(Extractor::get(&carrier, "e"), Some(" ~\t"));
}

#[test]
fn http_headers_file_names_in_lower_case() {
    let mut carrier = http::HeaderMap::new();
    carrier.set("X-Custom-Name", "v".to_string());
    let names: Vec<&str> = carrier.keys().map(|name| name.as_str()).collect();
    assert_eq!(names, vec!["x-custom-name"]);
}

fn round_trip_through<C: Injector + Extractor>(mut carrier: C) {
    let propagator = CorrelationContextPropagator::new();
    let cx = Context::new().with_correlations(vec![KeyValue::new(
        Key::new("user id"),
        Value::String("a,b".to_string()),
    )]);
    propagator.inject_context(&cx, &mut carrier);
    assert_eq!(Extractor::get(&carrier, "OtCorrelations"), Some("user%20id=a%2Cb"));

    let back = propagator.extract_with_context(&Context::new(), &carrier);
    let correlations = back.correlation_context();
    assert_eq!(correlations.len(), 1);
    assert_eq!(correlations.get("user id"), Some(&Value::String("a,b".to_string())));
}

#[test]
fn correlations_travel_in_every_carrier() {
    round_trip_through(HashMap::<String, String>::new());
    round_trip_through(http::HeaderMap::new());
    round_trip_through(tonic::metadata::MetadataMap::new());
}

fn spellings(name: &str) -> Vec<String> {
    vec![
        name.to_string(),
        name.to_ascii_uppercase(),
        name.to_ascii_lowercase(),
        name.chars()
            .enumerate()
            .map(|(i, c)| if i % 2 == 0 { c.to_ascii_uppercase() } else { c.to_ascii_lowercase() })
            .collect(),
    ]
}

#[test]
fn http_headers_ignore_ascii_case_only() {
    for written in spellings("X-Custom-Name") {
        for asked in spellings("x-custom-name") {
            let mut carrier = http::HeaderMap::new();
            carrier.append("other", http::HeaderValue::from_static("kept"));
            carrier.append("x-custom-name", http::HeaderValue::from_static("old"));
            carrier.append("x-custom-name", http::HeaderValue::from_static("older"));
            carrier.set(&written, "value".to_string());
            assert_eq!(Extractor::get(&carrier, &asked), Some("value"));
            assert_eq!(carrier.get_all("x-custom-name").iter().count(), 1);
            assert_eq!(Extractor::get(&carrier, "other"), Some("kept"));
            assert_eq!(carrier.len(), 2);
        }
    }
    let mut carrier = http::HeaderMap::new();
    carrier.set("stra\u{df}e", "v".to_string());
    carrier.set("\u{212a}ey", "v".to_string());
    assert!(carrier.is_empty());
}

#[test]
fn http_header_names_are_filed_in_small_letters() {
    for key in ["ABC", "Content-Type", "x_Y.z~9", "!#$%&'*+-.^_`|~", "a"] {
        let mut carrier = http::HeaderMap::new();
        carrier.set(key, "v".to_string());
        let names: Vec<String> = carrier.keys().map(|name| name.as_str().to_string()).collect();
        assert_eq!(names, vec![key.to_ascii_lowercase()], "key {}", key);
    }
    let long = "Ab".repeat(100);
    let mut carrier = http::HeaderMap::new();
    carrier.set(&long, "v".to_string());
    assert_eq!(Extractor::get(&carrier, &long.to_ascii_uppercase()), Some("v"));
    assert_eq!(carrier.keys().next().map(|name| name.as_str().to_string()), Some("ab".repeat(100)));
}

#[test]
fn http_header_names_are_accepted_whatever_their_case() {
    for byte in 0..=127u8 {
        let key = (byte as char).to_string();
        let mut as_written = http::HeaderMap::new();
        as_written.set(&key, "v".to_string());
        let mut lowered = http::HeaderMap::new();
        lowered.set(&key.to_ascii_lowercase(), "v".to_string());
        assert_eq!(as_written.len(), lowered.len(), "byte {}", byte);
        assert_eq!(as_written, lowered, "byte {}", byte);
    }
}

#[test]
fn http_headers_last_write_wins() {
    let mut carrier = http::HeaderMap::new();
    carrier.set("x", "a".to_string());
    carrier.set("x", "b".to_string());
    assert_eq!(carrier.len(), 1);
    assert_eq!(Extractor::get(&carrier, "x"), Some("b"));
}

#[test]
fn http_headers_take_many_fields() {
    let mut carrier = http::HeaderMap::new();
    for i in 0..5000 {
        carrier.set(&format!("name-{}", i), format!("value-{}", i));
    }
    assert_eq!(carrier.len(), 5000);
    for i in 0..5000 {
        let expected = format!("value-{}", i);
        assert_eq!(Extractor::get(&carrier, &format!("NAME-{}", i)), Some(expected.as_str()));
    }
}

#[test]
fn http_headers_drop_fields_when_full() {
    let mut carrier = http::HeaderMap::new();
    for i in 0..40000 {
        carrier.set(&format!("name-{}", i), "v".to_string());
    }
    let held = carrier.len();
    assert!(held < 40000);
    assert!(held >= 5000);
    carrier.set("one-more", "v".to_string());
    assert_eq!(carrier.len(), held);
    assert_eq!(Extractor::get(&carrier, "one-more"), None);
    assert_eq!(Extractor::get(&carrier, "name-0"), Some("v"));
}

#[test]
fn tonic_headers_ignore_ascii_case() {
    for written in spellings("X-Custom-Name") {
        for asked in spellings("x-custom-name") {
            let mut carrier = tonic::metadata::MetadataMap::new();
            carrier.set("other", "kept".to_string());
            carrier.set("x-custom-name", "old".to_string());
            carrier.set(&written, "value".to_string());
            assert_eq!(Extractor::get(&carrier, &asked), Some("value"));
            assert_eq!(Extractor::get(&carrier, "other"), Some("kept"));
            assert_eq!(carrier.len(), 2);
        }
    }
}

#[test]
fn tonic_headers_last_write_wins() {
    let mut carrier = tonic::metadata::MetadataMap::new();
    carrier.set("x", "a".to_string());
    carrier.set("x", "b".to_string());
    assert_eq!(carrier.len(), 1);
    assert_eq!(Extractor::get(&carrier, "x"), Some("b"));
}
