use span_registry::registry::new_span_id;
use span_registry::values::record_fields;
use span_registry::{
    id_to_idx, Attributes, BigSpan, Event, Id, Interest, Level, LookupSpan, Metadata, Registry,
    RegistryVisitor, SpanData, Value,
};

fn metadata(name: &str) -> Metadata {
    Metadata {
        name: name.to_string(),
        level: Level::Info,
        fields: vec!["a".to_string(), "b".to_string()],
    }
}

fn fields(pairs: &[(&str, &str)]) -> Vec<(String, String)> {
    pairs
        .iter()
        .map(|(name, text)| (name.to_string(), text.to_string()))
        .collect()
}

fn attributes(name: &str) -> Attributes {
    Attributes {
        metadata: metadata(name),
        parent: None,
        contextual: true,
        fields: fields(&[("a", "1")]),
    }
}

fn event(name: &str, parent: Option<Id>, contextual: bool) -> Event {
    Event {
        metadata: metadata(name),
        parent,
        contextual,
        fields: fields(&[("message", "hello")]),
    }
}

fn open(registry: &mut Registry, name: &str) -> Id {
    registry.new_span(attributes(name)).unwrap()
}

fn text<'a>(span: &'a BigSpan, name: &str) -> Option<&'a str> {
    span.values.get(name).map(|value| match value {
        Value::String(text) => text.as_str(),
    })
}

#[test]
fn last_visit_of_a_field_is_recorded() {
    let values = record_fields(&fields(&[("a", "1"), ("b", "2"), ("a", "3")]));
    assert!(matches!(values.get("a"), Some(Value::String(text)) if text == "3"));
    assert!(matches!(values.get("b"), Some(Value::String(text)) if text == "2"));
    assert!(values.get("c").is_none());
}

#[test]
fn visitor_records_debug_text() {
    let mut visitor = RegistryVisitor::new();
    visitor.record_debug("x".to_string(), "\"y\"".to_string());
    let values = visitor.finish();
    assert!(matches!(values.get("x"), Some(Value::String(text)) if text == "\"y\""));
}

#[test]
fn new_span_can_be_looked_up() {
    let mut registry = Registry::default();
    let id = open(&mut registry, "outer");
    let span = registry.get(&id).unwrap();
    assert_eq!(span.name(), "outer");
    assert_eq!(span.fields(), &vec!["a".to_string(), "b".to_string()]);
    assert_eq!(text(span, "a"), Some("1"));
    assert_eq!(text(span, "b"), None);
    assert!(span.parent.is_none());
    assert!(span.events.is_empty());
    assert!(registry.is_open(&id));
}

#[test]
fn new_spans_have_different_ids() {
    let mut registry = Registry::default();
    let ids: Vec<Id> = (0..100).map(|i| open(&mut registry, &i.to_string())).collect();
    for (i, id) in ids.iter().enumerate() {
        assert_eq!(registry.get(id).unwrap().name(), i.to_string());
        assert!(!ids[..i].contains(id));
    }
}

#[test]
fn there_is_room_for_many_spans() {
    let mut registry = Registry::default();
    let ids: Vec<Option<Id>> = (0..20000).map(|_| registry.new_span(attributes("many"))).collect();
    assert!(ids.iter().all(|id| id.is_some()));
    for id in ids.iter().flatten() {
        assert!(registry.try_close(*id));
    }
    for _ in 0..20000 {
        assert!(registry.new_span(attributes("again")).is_some());
    }
}

#[test]
fn missing_span_is_not_found() {
    let mut registry = Registry::default();
    assert!(registry.get(&Id::from_u64(1)).is_none());
    assert!(registry.take(Id::from_u64(1)).is_none());
    let id = open(&mut registry, "only");
    for other in 1..200u64 {
        assert_eq!(registry.is_open(&Id::from_u64(other)), id == Id::from_u64(other));
    }
}

#[test]
fn closed_span_is_gone() {
    let mut registry = Registry::default();
    let first = open(&mut registry, "first");
    let second = open(&mut registry, "second");
    assert!(registry.try_close(first));
    assert!(registry.get(&first).is_none());
    assert_eq!(registry.get(&second).unwrap().name(), "second");
    assert!(registry.try_close(first));
    assert_eq!(registry.get(&second).unwrap().name(), "second");
}

#[test]
fn taken_span_is_returned() {
    let mut registry = Registry::default();
    let first = open(&mut registry, "first");
    let _ = open(&mut registry, "second");
    assert_eq!(registry.take(first).unwrap().name(), "first");
    assert!(registry.take(first).is_none());
}

#[test]
fn reused_slot_has_another_key() {
    let mut registry = Registry::default();
    let first = open(&mut registry, "first");
    assert!(registry.try_close(first));
    let second = open(&mut registry, "second");
    assert_ne!(first, second);
    assert_ne!(id_to_idx(&second), 1);
    assert!(registry.get(&first).is_none());
    assert_eq!(registry.get(&second).unwrap().name(), "second");
    assert_eq!(registry.take(second).unwrap().name(), "second");
    assert!(!registry.is_open(&second));
}

#[test]
fn slot_can_be_reused_past_its_last_generation() {
    let mut registry = Registry::default();
    let first = open(&mut registry, "first");
    assert!(registry.try_close(first));
    for _ in 0..20000 {
        let id = open(&mut registry, "next");
        assert_eq!(registry.is_open(&first), first == id);
        assert!(registry.try_close(id));
        assert!(!registry.is_open(&first));
    }
}

#[test]
fn new_span_id_follows_the_slab() {
    assert_eq!(new_span_id(None), None);
    assert_eq!(new_span_id(Some(0)), Some(Id::from_u64(1)));
    assert_eq!(new_span_id(Some(41)), Some(Id::from_u64(42)));
}

#[test]
fn event_is_stored_in_the_current_span() {
    let mut registry = Registry::default();
    let outer = open(&mut registry, "outer");
    let inner = open(&mut registry, "inner");
    registry.enter(&outer);
    registry.enter(&inner);
    registry.event(event("one", None, true));
    registry.exit(&inner);
    registry.event(event("two", None, true));
    registry.event(event("three", None, true));
    let in_outer = &registry.get(&outer).unwrap().events;
    let in_inner = &registry.get(&inner).unwrap().events;
    assert_eq!(in_inner.len(), 1);
    assert_eq!(in_inner[0].metadata.name, "one");
    assert_eq!(in_inner[0].parent, inner);
    assert!(matches!(in_inner[0].values.get("message"), Some(Value::String(text)) if text == "hello"));
    assert_eq!(in_outer.len(), 2);
    assert_eq!(in_outer[0].metadata.name, "two");
    assert_eq!(in_outer[1].metadata.name, "three");
}

#[test]
fn event_is_stored_in_the_named_span() {
    let mut registry = Registry::default();
    let outer = open(&mut registry, "outer");
    let inner = open(&mut registry, "inner");
    registry.enter(&inner);
    let named = event("named", Some(outer), false);
    assert_eq!(registry.event_parent(&named), Some(outer));
    registry.event(named);
    assert_eq!(registry.get(&outer).unwrap().events.len(), 1);
    assert_eq!(registry.get(&inner).unwrap().events.len(), 0);
}

#[test]
fn event_without_a_span_is_not_stored() {
    let mut registry = Registry::default();
    let outer = open(&mut registry, "outer");
    registry.event(event("outside", None, true));
    registry.enter(&outer);
    registry.event(event("root", None, false));
    assert_eq!(registry.get(&outer).unwrap().events.len(), 0);
}

#[test]
fn exit_of_an_outer_span_does_nothing() {
    let mut registry = Registry::default();
    let outer = open(&mut registry, "outer");
    let inner = open(&mut registry, "inner");
    registry.enter(&outer);
    registry.enter(&inner);
    registry.exit(&outer);
    assert_eq!(registry.event_parent(&event("e", None, true)), Some(inner));
}

#[test]
fn span_takes_its_parent_from_the_context() {
    let mut registry = Registry::default();
    let outer = open(&mut registry, "outer");
    registry.enter(&outer);
    let inner = open(&mut registry, "inner");
    let root = registry
        .new_span(Attributes { contextual: false, ..attributes("root") })
        .unwrap();
    let named = registry
        .new_span(Attributes { parent: Some(root), ..attributes("named") })
        .unwrap();
    assert_eq!(registry.get(&inner).unwrap().parent, Some(outer));
    assert_eq!(registry.get(&root).unwrap().parent, None);
    assert_eq!(registry.get(&named).unwrap().parent, Some(root));
}

#[test]
fn looked_up_span_tells_its_key() {
    let mut registry = Registry::default();
    let first = open(&mut registry, "first");
    registry.enter(&first);
    let second = open(&mut registry, "second");
    let found = registry.span(&second).unwrap();
    assert_eq!(found.id().into_u64(), second.into_u64() - 1);
    assert_eq!(found.metadata().name, "second");
    assert_eq!(found.parent(), Some(&first));
    assert!(registry.span(&first).unwrap().parent().is_none());
    assert!(registry.try_close(first));
    assert!(registry.span(&first).is_none());
}

#[test]
fn registry_wants_to_hear_of_everything() {
    let registry = Registry::default();
    let quiet = Metadata { level: Level::Trace, ..metadata("quiet") };
    assert_eq!(registry.register_callsite(&quiet), Interest::Always);
    assert!(registry.enabled(&quiet));
}
