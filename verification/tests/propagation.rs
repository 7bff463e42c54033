use opentelemetry::api::correlation::propagation::CORRELATION_CONTEXT_HEADER;
use opentelemetry::api::{
    Context, CorrelationContextExt, CorrelationContextPropagator, CurrentContext, Extractor,
    Injector, Key, KeyValue, TextMapFormat, Value,
};
use std::collections::HashMap;

fn text(s: &str) -> Value {
    Value::String(s.to_string())
}

fn pair(key: &str, value: Value) -> KeyValue {
    KeyValue::new(Key::new(key), value)
}

#[test]
fn hash_map() {
    let mut carrier = HashMap::new();
    carrier.set("headerName", "value".to_string());

    assert_eq!(
        Extractor::get(&carrier, "HEADERNAME"),
        Some("value"),
        "case insensitive extraction"
    )
}

fn valid_extract_data() -> Vec<(&'static str, HashMap<Key, Value>)> {
    vec![
        // "valid w3cHeader"
        ("key1=val1,key2=val2", vec![(Key::new("key1"), text("val1")), (Key::new("key2"), text("val2"))].into_iter().collect()),
        // "valid w3cHeader with spaces"
        ("key1 =   val1,  key2 =val2   ", vec![(Key::new("key1"), text("val1")), (Key::new("key2"), text("val2"))].into_iter().collect()),
        // "valid w3cHeader with properties"
        ("key1=val1,key2=val2;prop=1", vec![(Key::new("key1"), text("val1")), (Key::new("key2"), text("val2;prop=1"))].into_iter().collect()),
        // "valid header with url-escaped comma"
        ("key1=val1,key2=val2%2Cval3", vec![(Key::new("key1"), text("val1")), (Key::new("key2"), text("val2,val3"))].into_iter().collect()),
        // "valid header with an invalid header"
        ("key1=val1,key2=val2,a,val3", vec![(Key::new("key1"), text("val1")), (Key::new("key2"), text("val2"))].into_iter().collect()),
        // "valid header with no value"
        ("key1=,key2=val2", vec![(Key::new("key1"), text("")), (Key::new("key2"), text("val2"))].into_iter().collect()),
    ]
}

fn valid_inject_data() -> Vec<(Vec<KeyValue>, Vec<&'static str>)> {
    vec![
        // "two simple values"
        (vec![pair("key1", text("val1")), pair("key2", text("val2"))], vec!["key1=val1", "key2=val2"]),
        // "two values with escaped chars"
        (vec![pair("key1", text("val1,val2")), pair("key2", text("val3=4"))], vec!["key1=val1%2Cval2", "key2=val3=4"]),
        // "values of non-string non-array types"
        (
            vec![
                pair("key1", Value::Bool(true)),
                pair("key2", Value::I64(123)),
                pair("key3", Value::U64(123)),
                pair("key4", Value::F64(123.567_f64.to_string())),
            ],
            vec![
                "key1=true",
                "key2=123",
                "key3=123",
                "key4=123.567",
            ],
        ),
        // "values of array types"
        (
            vec![
                pair("key1", Value::Array(vec![Value::Bool(true), Value::Bool(false)])),
                pair("key2", Value::Array(vec![Value::I64(123), Value::I64(456)])),
                pair("key3", Value::Array(vec![Value::String("val1".to_string()), Value::String("val2".to_string())])),
                pair("key4", Value::Array(vec![Value::Bytes(vec![118, 97, 108, 49]), Value::Bytes(vec![118, 97, 108, 50])])),
            ],
            vec![
                "key1=[true%2Cfalse]",
                "key2=[123%2C456]",
                "key3=[%22val1%22%2C%22val2%22]",
                "key4=[%22val1%22%2C%22val2%22]",
            ],
        )
    ]
}

#[test]
fn extract_correlations() {
    let propagator = CorrelationContextPropagator::new();

    for (header_value, kvs) in valid_extract_data() {
        let mut extractor: HashMap<String, String> = HashMap::new();
        extractor.insert(
            CORRELATION_CONTEXT_HEADER.to_string(),
            header_value.to_string(),
        );
        let context = propagator.extract(&CurrentContext::new(), &extractor);
        let correlations = context.correlation_context();

        assert_eq!(kvs.len(), correlations.len());
        for entry in correlations.entries() {
            assert_eq!(Some(&entry.value), kvs.get(&entry.key))
        }
    }
}

#[test]
fn inject_correlations() {
    let propagator = CorrelationContextPropagator::new();

    for (kvs, header_parts) in valid_inject_data() {
        let mut injector = HashMap::new();
        let cx = Context::current_with_correlations(&CurrentContext::new(), kvs);
        propagator.inject_context(&cx, &mut injector);
        let header_value = injector.get(CORRELATION_CONTEXT_HEADER).unwrap();

        assert_eq!(header_parts.join(",").len(), header_value.len(),);
        for header_part in &header_parts {
            assert!(header_value.contains(header_part),)
        }
    }
}
