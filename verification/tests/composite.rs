use opentelemetry::api::context::propagation::composite_propagator::TextMapCompositePropagator;
use opentelemetry::api::{
    Context, CorrelationContextExt, CorrelationContextPropagator, Extractor, Injector, Key,
    KeyValue, TextMapFormat, Value,
};
use std::collections::HashMap;

/// Writes one field, and on extraction records what it read under its key.
struct Fixed {
    field: &'static str,
    value: &'static str,
    extra: Vec<&'static str>,
}

impl Fixed {
    fn new(field: &'static str, value: &'static str) -> Fixed {
        Fixed { field, value, extra: Vec::new() }
    }
}

impl TextMapFormat for Fixed {
    fn inject_context<I: Injector>(&self, _cx: &Context, injector: &mut I) {
        injector.set(self.field, self.value.to_string());
    }

    fn extract_with_context<E: Extractor>(&self, cx: &Context, extractor: &E) -> Context {
        match extractor.get(self.field) {
            Some(found) => {
                let seen = cx.correlation_context().len();
                cx.with_correlations(vec![KeyValue::new(
                    Key::new(self.value),
                    Value::String(format!("{}:{}", seen, found)),
                )])
            }
            None => cx.clone(),
        }
    }

    fn fields(&self) -> Vec<String> {
        let mut names = vec![self.field.to_string()];
        for name in &self.extra {
            names.push(name.to_string());
        }
        names
    }
}

#[test]
fn composite_last_writer_wins() {
    let composite =
        TextMapCompositePropagator::new(vec![Fixed::new("x", "from-a"), Fixed::new("x", "from-b")]);
    let mut carrier: HashMap<String, String> = HashMap::new();
    composite.inject_context(&Context::new(), &mut carrier);

    assert_eq!(Extractor::get(&carrier, "x"), Some("from-b"));
    assert_eq!(carrier.len(), 1);
}

#[test]
fn composite_order_decides() {
    let composite =
        TextMapCompositePropagator::new(vec![Fixed::new("x", "from-b"), Fixed::new("X", "from-a")]);
    let mut carrier: HashMap<String, String> = HashMap::new();
    composite.inject_context(&Context::new(), &mut carrier);

    assert_eq!(Extractor::get(&carrier, "x"), Some("from-a"));
}

#[test]
fn composite_injects_every_field() {
    let composite =
        TextMapCompositePropagator::new(vec![Fixed::new("a", "1"), Fixed::new("b", "2")]);
    let mut carrier: HashMap<String, String> = HashMap::new();
    composite.inject_context(&Context::new(), &mut carrier);

    assert_eq!(Extractor::get(&carrier, "a"), Some("1"));
    assert_eq!(Extractor::get(&carrier, "b"), Some("2"));
}

#[test]
fn composite_of_nothing_does_nothing() {
    let composite: TextMapCompositePropagator<Fixed> = TextMapCompositePropagator::new(vec![]);
    let mut carrier: HashMap<String, String> = HashMap::new();
    composite.inject_context(&Context::new(), &mut carrier);
    assert!(carrier.is_empty());

    carrier.insert("a".to_string(), "1".to_string());
    let cx = composite.extract_with_context(&Context::new(), &carrier);
    assert_eq!(cx.correlation_context().len(), 0);
    assert!(composite.fields().is_empty());
}

#[test]
fn composite_threads_the_context_through() {
    let composite =
        TextMapCompositePropagator::new(vec![Fixed::new("a", "first"), Fixed::new("b", "second")]);
    let mut carrier: HashMap<String, String> = HashMap::new();
    carrier.insert("a".to_string(), "1".to_string());
    carrier.insert("b".to_string(), "2".to_string());

    let cx = composite.extract_with_context(&Context::new(), &carrier);
    let correlations = cx.correlation_context();

    assert_eq!(correlations.len(), 2);
    assert_eq!(correlations.get("first"), Some(&Value::String("0:1".to_string())));
    assert_eq!(correlations.get("second"), Some(&Value::String("1:2".to_string())));
}

#[test]
fn composite_goes_on_after_a_propagator_finds_nothing() {
    let composite =
        TextMapCompositePropagator::new(vec![Fixed::new("a", "first"), Fixed::new("b", "second")]);
    let mut carrier: HashMap<String, String> = HashMap::new();
    carrier.insert("b".to_string(), "2".to_string());

    let cx = composite.extract_with_context(&Context::new(), &carrier);
    let correlations = cx.correlation_context();

    assert_eq!(correlations.len(), 1);
    assert_eq!(correlations.get("second"), Some(&Value::String("0:2".to_string())));
}

#[test]
fn composite_fields_are_the_union_in_first_seen_order() {
    let mut a = Fixed::new("x", "a");
    a.extra = vec!["y", "x"];
    let mut b = Fixed::new("z", "b");
    b.extra = vec!["y", "w"];
    let composite = TextMapCompositePropagator::new(vec![a, b]);

    assert_eq!(composite.fields(), vec!["x", "y", "z", "w"]);
}

#[test]
fn composite_of_composites() {
    let inner = TextMapCompositePropagator::new(vec![
        CorrelationContextPropagator::new(),
        CorrelationContextPropagator::new(),
    ]);
    let outer = TextMapCompositePropagator::new(vec![inner]);
    assert_eq!(outer.fields(), vec!["otcorrelations"]);

    let cx = Context::new()
        .with_correlations(vec![KeyValue::new(Key::new("k"), Value::String("v".to_string()))]);
    let mut carrier: HashMap<String, String> = HashMap::new();
    outer.inject_context(&cx, &mut carrier);
    assert_eq!(Extractor::get(&carrier, "otcorrelations"), Some("k=v"));

    let back = outer.extract_with_context(&Context::new(), &carrier);
    assert_eq!(back.correlation_context().get("k"), Some(&Value::String("v".to_string())));
    assert_eq!(back.correlation_context().len(), 1);
}
