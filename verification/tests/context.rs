use opentelemetry::api::{
    Context, CorrelationContext, CorrelationContextExt, CurrentContext, Key, KeyValue,
    SpanContext, SpanId, TraceId, Value, TRACE_FLAG_SAMPLED,
};

fn text(s: &str) -> Value {
    Value::String(s.to_string())
}

fn pair(key: &str, value: Value) -> KeyValue {
    KeyValue::new(Key::new(key), value)
}

fn span(trace: u128, span: u64) -> SpanContext {
    SpanContext::new(TraceId(trace), SpanId(span), TRACE_FLAG_SAMPLED, true)
}

#[test]
fn empty_context_holds_nothing() {
    let cx = Context::new();
    assert!(cx.get::<SpanContext>().is_none());
    assert!(cx.get::<CorrelationContext>().is_none());
    assert!(cx.correlation_context().is_empty());
    assert_eq!(cx.correlations().len(), 0);
}

#[test]
fn with_value_adds_an_entry_and_leaves_the_parent() {
    let parent = Context::new();
    let child = parent.with_value(span(1, 2));
    assert!(parent.get::<SpanContext>().is_none());
    assert!(child.get::<SpanContext>().unwrap().same_as(&span(1, 2)));
    assert!(child.get::<CorrelationContext>().is_none());
}

#[test]
fn with_value_overrides_the_entry_of_its_type_only() {
    let first = Context::new()
        .with_value(span(1, 2))
        .with_correlations(vec![pair("k", text("v"))]);
    let second = first.with_value(span(3, 4));

    assert!(first.get::<SpanContext>().unwrap().same_as(&span(1, 2)));
    assert!(second.get::<SpanContext>().unwrap().same_as(&span(3, 4)));
    assert_eq!(second.correlation_context().get("k"), Some(&text("v")));

    let mut other = CorrelationContext::new();
    other.insert(Key::new("j"), Value::U64(1));
    let third = second.with_value(other);
    assert!(third.get::<SpanContext>().unwrap().same_as(&span(3, 4)));
    assert_eq!(third.get::<CorrelationContext>().unwrap().len(), 1);
    assert_eq!(third.correlation_context().get("j"), Some(&Value::U64(1)));
    assert_eq!(third.correlation_context().get("k"), None);
    assert_eq!(second.correlation_context().get("k"), Some(&text("v")));
}

#[test]
fn clone_keeps_every_entry() {
    let cx = Context::new()
        .with_value(span(7, 8))
        .with_correlations(vec![pair("k", text("v"))]);
    let copy = cx.clone();
    assert!(copy.get::<SpanContext>().unwrap().same_as(&span(7, 8)));
    assert_eq!(copy.correlation_context().get("k"), Some(&text("v")));
}

#[test]
fn with_correlations_merges_in_order() {
    let cx = Context::new().with_correlations(vec![
        pair("a", text("1")),
        pair("b", text("2")),
        pair("a", text("3")),
    ]);
    let correlations = cx.correlation_context();
    assert_eq!(correlations.len(), 2);
    assert_eq!(correlations.get("a"), Some(&text("3")));
    assert_eq!(correlations.get("b"), Some(&text("2")));

    let more = cx.with_correlations(vec![pair("c", Value::Bool(true)), pair("b", Value::I64(5))]);
    let keys: Vec<&str> =
        more.correlation_context().entries().iter().map(|kv| kv.key.as_str()).collect();
    assert_eq!(keys, vec!["a", "b", "c"]);
    assert_eq!(more.correlation_context().get("b"), Some(&Value::I64(5)));
    assert_eq!(cx.correlation_context().get("b"), Some(&text("2")));
    assert_eq!(cx.correlation_context().len(), 2);
}

#[test]
fn with_no_correlations_stores_empty_data() {
    let cx = Context::new().with_correlations(vec![]);
    assert!(cx.get::<CorrelationContext>().is_some());
    assert!(cx.correlation_context().is_empty());
}

#[test]
fn with_cleared_correlations_removes_every_entry() {
    let cx = Context::new()
        .with_value(span(1, 1))
        .with_correlations(vec![pair("k", text("v"))]);
    let cleared = cx.with_cleared_correlations();
    assert_eq!(cleared.correlation_context().len(), 0);
    assert!(cleared.get::<CorrelationContext>().is_some());
    assert!(cleared.get::<SpanContext>().unwrap().same_as(&span(1, 1)));
    assert_eq!(cx.correlation_context().len(), 1);
}

#[test]
fn current_with_correlations_starts_from_the_current_context() {
    let mut slot = CurrentContext::new();
    let cx = Context::current_with_correlations(&slot, vec![pair("my-name", text("my-value"))]);
    assert_eq!(cx.correlation_context().get("my-name"), Some(&text("my-value")));
    assert!(slot.current().correlation_context().is_empty());

    let _guard = slot.attach(cx);
    let next = Context::current_with_correlations(&slot, vec![pair("other", Value::U64(1))]);
    assert_eq!(next.correlation_context().len(), 2);
    assert_eq!(next.correlation_context().get("my-name"), Some(&text("my-value")));
}

#[test]
fn correlation_context_inserts_in_place() {
    let mut cc = CorrelationContext::new();
    assert!(cc.is_empty());
    cc.insert(Key::new("a"), Value::U64(1));
    cc.insert(Key::new("b"), Value::U64(2));
    cc.insert(Key::new("a"), Value::U64(3));
    assert_eq!(cc.len(), 2);
    assert!(!cc.is_empty());
    assert_eq!(cc.entries()[0], pair("a", Value::U64(3)));
    assert_eq!(cc.entries()[1], pair("b", Value::U64(2)));
    assert_eq!(cc.get("a"), Some(&Value::U64(3)));
    assert_eq!(cc.get("A"), None);
    assert_eq!(cc.get(""), None);
}

#[test]
fn correlation_context_removes() {
    let mut cc = CorrelationContext::new();
    cc.insert(Key::new("a"), Value::U64(1));
    cc.insert(Key::new("b"), Value::U64(2));
    cc.insert(Key::new("c"), Value::U64(3));
    assert_eq!(cc.remove("b"), Some(Value::U64(2)));
    assert_eq!(cc.remove("b"), None);
    assert_eq!(cc.len(), 2);
    assert_eq!(cc.entries()[0].key.as_str(), "a");
    assert_eq!(cc.entries()[1].key.as_str(), "c");
    let copy = cc.clone();
    assert_eq!(copy.len(), 2);
    assert_eq!(copy.get("c"), Some(&Value::U64(3)));
}

#[test]
fn scope_exit_restores_the_previous_context() {
    let mut slot = CurrentContext::new();
    assert!(slot.current().correlation_context().is_empty());

    let outer = Context::new().with_correlations(vec![pair("scope", text("outer"))]);
    let inner = Context::new().with_correlations(vec![pair("scope", text("inner"))]);

    let outer_guard = slot.attach(outer);
    assert_eq!(slot.current().correlation_context().get("scope"), Some(&text("outer")));

    let inner_guard = slot.attach(inner);
    assert_eq!(slot.current().correlation_context().get("scope"), Some(&text("inner")));

    slot.release(inner_guard);
    assert_eq!(slot.current().correlation_context().get("scope"), Some(&text("outer")));

    slot.release(outer_guard);
    assert!(slot.current().correlation_context().is_empty());
    assert!(slot.current().get::<CorrelationContext>().is_none());
}

#[test]
fn scope_exit_restores_on_an_error_path() {
    fn fails(slot: &mut CurrentContext) -> Result<(), String> {
        let guard = slot.attach(Context::new().with_value(span(9, 9)));
        let result: Result<(), String> = Err("failed inside the scope".to_string());
        slot.release(guard);
        result
    }

    let mut slot = CurrentContext::new();
    let guard = slot.attach(Context::new().with_value(span(1, 2)));
    assert!(fails(&mut slot).is_err());
    assert!(slot.current().get::<SpanContext>().unwrap().same_as(&span(1, 2)));
    slot.release(guard);
    assert!(slot.current().get::<SpanContext>().is_none());
}

#[test]
fn span_context_accessors() {
    let sc = SpanContext::new(TraceId(0x0102), SpanId(0x03), 0x01, true);
    assert_eq!(sc.trace_id(), TraceId(0x0102));
    assert_eq!(sc.span_id(), SpanId(0x03));
    assert_eq!(sc.trace_id().to_u128(), 0x0102);
    assert_eq!(sc.span_id().to_u64(), 0x03);
    assert_eq!(sc.trace_flags(), 1);
    assert!(sc.is_remote());
    assert!(sc.is_sampled());
    assert!(sc.is_valid());
    assert!(sc.trace_state().is_empty());
}

#[test]
fn span_context_validity() {
    assert!(!SpanContext::empty_context().is_valid());
    assert!(!SpanContext::empty_context().is_remote());
    assert!(!SpanContext::empty_context().is_sampled());
    assert!(!SpanContext::new(TraceId(0), SpanId(1), 0, false).is_valid());
    assert!(!SpanContext::new(TraceId(1), SpanId(0), 0, false).is_valid());
    assert!(!SpanContext::new(TraceId::invalid(), SpanId::invalid(), 0, false).is_valid());
    assert!(SpanContext::new(TraceId(u128::MAX), SpanId(u64::MAX), 0, false).is_valid());
}

#[test]
fn span_context_sampled_is_bit_zero() {
    assert!(SpanContext::new(TraceId(1), SpanId(1), 0x01, false).is_sampled());
    assert!(SpanContext::new(TraceId(1), SpanId(1), 0xff, false).is_sampled());
    assert!(!SpanContext::new(TraceId(1), SpanId(1), 0x00, false).is_sampled());
    assert!(!SpanContext::new(TraceId(1), SpanId(1), 0xfe, false).is_sampled());
}

#[test]
fn span_context_equality_is_by_content() {
    let a = span(1, 2).with_state("vendor".to_string(), "x".to_string());
    let b = span(1, 2).with_state("vendor".to_string(), "x".to_string());
    assert!(a.same_as(&b));
    assert!(a.same_as(&a.clone()));
    assert!(!a.same_as(&span(1, 2)));
    assert!(!a.same_as(&span(1, 2).with_state("vendor".to_string(), "y".to_string())));
    assert!(!a.same_as(&span(1, 2).with_state("other".to_string(), "x".to_string())));
    assert!(!span(1, 2).same_as(&span(1, 3)));
    assert!(!span(1, 2).same_as(&span(2, 2)));
    assert!(!span(1, 2).same_as(&SpanContext::new(TraceId(1), SpanId(2), 0, true)));
    assert!(!span(1, 2).same_as(&SpanContext::new(TraceId(1), SpanId(2), 1, false)));
    assert_eq!(a.trace_state().len(), 1);
    assert_eq!(a.trace_state()[0], ("vendor".to_string(), "x".to_string()));
}
