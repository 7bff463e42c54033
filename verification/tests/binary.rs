use opentelemetry::api::{BinaryFormat, BinaryPropagator, SpanContext, SpanId, TraceId};

fn span(trace: u128, span: u64, flags: u8, remote: bool) -> SpanContext {
    SpanContext::new(TraceId(trace), SpanId(span), flags, remote)
}

#[test]
fn to_bytes_lays_out_the_fields() {
    let propagator = BinaryPropagator::new();
    let bytes = propagator.to_bytes(&span(
        0x0102_0304_0506_0708_090a_0b0c_0d0e_0f10,
        0x1112_1314_1516_1718,
        0x01,
        false,
    ));
    assert_eq!(
        bytes,
        vec![
            0, 0, 0x10, 0x0f, 0x0e, 0x0d, 0x0c, 0x0b, 0x0a, 0x09, 0x08, 0x07, 0x06, 0x05, 0x04,
            0x03, 0x02, 0x01, 1, 0x18, 0x17, 0x16, 0x15, 0x14, 0x13, 0x12, 0x11, 2, 0x01,
        ]
    );
}

#[test]
fn from_bytes_reads_what_to_bytes_wrote() {
    let propagator = BinaryPropagator::new();
    for (trace, id, flags) in [(1u128, 1u64, 0u8), (u128::MAX, u64::MAX, 0xff), (1 << 127, 1 << 63, 1)]
    {
        let written = propagator.to_bytes(&span(trace, id, flags, false));
        assert_eq!(written.len(), 29);
        let read = propagator.from_bytes(written);
        assert!(read.same_as(&span(trace, id, flags, true)));
        assert!(read.is_remote());
        assert!(read.is_valid());
    }
}

#[test]
fn vendor_state_is_not_written() {
    let propagator = BinaryPropagator::new();
    let context = span(5, 6, 1, true).with_state("vendor".to_string(), "x".to_string());
    let read = propagator.from_bytes(propagator.to_bytes(&context));
    assert!(read.same_as(&span(5, 6, 1, true)));
    assert!(read.trace_state().is_empty());
}

#[test]
fn malformed_bytes_give_no_span() {
    let propagator = BinaryPropagator::new();
    let good = propagator.to_bytes(&span(5, 6, 1, false));

    let empty = SpanContext::empty_context();
    assert!(propagator.from_bytes(vec![]).same_as(&empty));
    assert!(propagator.from_bytes(vec![0; 29]).same_as(&empty));
    assert!(propagator.from_bytes(good[..28].to_vec()).same_as(&empty));

    let mut long = good.clone();
    long.push(0);
    assert!(propagator.from_bytes(long).same_as(&empty));

    for index in [0usize, 1, 18, 27] {
        let mut bad = good.clone();
        bad[index] = 9;
        assert!(propagator.from_bytes(bad).same_as(&empty), "byte {}", index);
    }
    assert!(!propagator.from_bytes(good).same_as(&empty));
}

#[test]
fn invalid_span_context_reads_as_no_span() {
    let propagator = BinaryPropagator::new();
    let empty = SpanContext::empty_context();
    assert!(propagator.from_bytes(propagator.to_bytes(&span(0, 6, 1, false))).same_as(&empty));
    assert!(propagator.from_bytes(propagator.to_bytes(&span(5, 0, 1, false))).same_as(&empty));
    assert!(propagator.from_bytes(propagator.to_bytes(&empty)).same_as(&empty));
}
