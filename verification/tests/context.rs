use span_registry::{
    Attributes, BigSpan, Context, Id, Level, Metadata, Registry, SpanStack,
};

fn open(registry: &mut Registry, name: &str, parent: Option<Id>) -> Id {
    registry
        .new_span(Attributes {
            metadata: Metadata {
                name: name.to_string(),
                level: Level::Info,
                fields: Vec::new(),
            },
            parent,
            contextual: false,
            fields: Vec::new(),
        })
        .unwrap()
}

fn stack_of(ids: &[Id]) -> SpanStack {
    let mut stack = SpanStack::new();
    for id in ids {
        stack.push(*id);
    }
    stack
}

fn collect(mut names: Vec<String>, _id: &Id, span: &BigSpan) -> (Vec<String>, Result<(), u8>) {
    names.push(span.name().to_string());
    (names, Ok(()))
}

#[test]
fn spans_are_visited_from_the_root() {
    let mut registry = Registry::default();
    let root = open(&mut registry, "root", None);
    let middle = open(&mut registry, "middle", Some(root));
    let leaf = open(&mut registry, "leaf", Some(middle));
    let context = Context::new(&registry, &());
    let (names, result) = context.visit_spans(Some(&stack_of(&[leaf])), false, Vec::new(), collect);
    assert_eq!(names, ["root", "middle", "leaf"]);
    assert_eq!(result, Ok(()));
    assert_eq!(registry.trail(&leaf), Some(vec![root, middle, leaf]));
}

#[test]
fn error_stops_the_visit() {
    let mut registry = Registry::default();
    let root = open(&mut registry, "root", None);
    let middle = open(&mut registry, "middle", Some(root));
    let leaf = open(&mut registry, "leaf", Some(middle));
    let context = Context::new(&registry, &());
    let (names, result) = context.visit_spans(
        Some(&stack_of(&[leaf])),
        false,
        Vec::new(),
        |mut names: Vec<String>, id: &Id, span: &BigSpan| {
            names.push(span.name().to_string());
            (names, if *id == middle { Err("stop") } else { Ok(()) })
        },
    );
    assert_eq!(names, ["root", "middle"]);
    assert_eq!(result, Err("stop"));
}

#[test]
fn nothing_is_visited_outside_of_a_span() {
    let mut registry = Registry::default();
    let root = open(&mut registry, "root", None);
    let context = Context::new(&registry, &());
    let (names, result) = context.visit_spans(Some(&SpanStack::new()), false, Vec::new(), collect);
    assert!(names.is_empty());
    assert_eq!(result, Ok(()));
    let (names, result) = context.visit_spans(None, false, Vec::new(), collect);
    assert!(names.is_empty());
    assert_eq!(result, Ok(()));
    assert_eq!(context.current(Some(&SpanStack::new())), None);
    assert_eq!(context.current(None), None);
    assert_eq!(context.current(Some(&stack_of(&[root]))), Some(root));
}

#[test]
fn nothing_is_visited_while_unwinding() {
    let mut registry = Registry::default();
    let root = open(&mut registry, "root", None);
    let leaf = open(&mut registry, "leaf", Some(root));
    let stack = stack_of(&[leaf]);
    let context = Context::new(&registry, &());
    assert!(context.can_visit(Some(&stack), true));
    let (names, result) = context.visit_spans(Some(&stack), true, Vec::new(), collect);
    assert!(names.is_empty());
    assert_eq!(result, Ok(()));
    let (names, _) = context.visit_spans(Some(&stack), false, Vec::new(), collect);
    assert_eq!(names, ["root", "leaf"]);
    assert!(registry.try_close(root));
    let context = Context::new(&registry, &());
    assert!(!context.can_visit(Some(&stack), false));
    assert!(context.can_visit(Some(&stack), true));
    let (names, result) = context.visit_spans(Some(&stack), true, Vec::new(), collect);
    assert!(names.is_empty());
    assert_eq!(result, Ok(()));
}

#[test]
fn nothing_is_visited_in_a_closed_span() {
    let mut registry = Registry::default();
    let root = open(&mut registry, "root", None);
    assert!(registry.try_close(root));
    let context = Context::new(&registry, &());
    let (names, result) = context.visit_spans(Some(&stack_of(&[root])), false, Vec::new(), collect);
    assert!(names.is_empty());
    assert_eq!(result, Ok(()));
    assert_eq!(context.with_current(Some(&stack_of(&[root])), |_| 1), None);
}

#[test]
fn closure_is_executed_with_the_current_span() {
    let mut registry = Registry::default();
    let root = open(&mut registry, "root", None);
    let leaf = open(&mut registry, "leaf", Some(root));
    let context = Context::new(&registry, &());
    let stack = stack_of(&[root, leaf, root]);
    let seen = context.with_current(Some(&stack), |(id, span): (&Id, &BigSpan)| {
        (*id, span.name().to_string())
    });
    assert_eq!(seen, Some((leaf, "leaf".to_string())));
    assert_eq!(context.with_current(Some(&SpanStack::new()), |_| 1), None);
    assert_eq!(context.with_current(None, |_| 1), None);
}

#[test]
fn span_that_is_its_own_parent_is_visited_twice() {
    let mut registry = Registry::default();
    let id = open(&mut registry, "first", None);
    assert!(registry.try_close(id));
    let probe = open(&mut registry, "probe", None);
    assert!(registry.try_close(probe));
    let next = Id::from_u64(probe.into_u64() + (probe.into_u64() - id.into_u64()));
    let own = open(&mut registry, "own", Some(next));
    assert_eq!(own, next);
    let context = Context::new(&registry, &());
    let (names, _) = context.visit_spans(Some(&stack_of(&[own])), false, Vec::new(), collect);
    assert_eq!(names, ["own", "own"]);
    assert_eq!(registry.trail(&own), Some(vec![own, own]));
}

#[test]
fn span_with_a_closed_parent_has_no_trail() {
    let mut registry = Registry::default();
    let root = open(&mut registry, "root", None);
    let leaf = open(&mut registry, "leaf", Some(root));
    assert_eq!(registry.trail(&leaf), Some(vec![root, leaf]));
    assert!(registry.try_close(root));
    assert_eq!(registry.trail(&leaf), None);
    assert_eq!(registry.trail(&root), None);
    let context = Context::new(&registry, &());
    assert!(!context.can_visit(Some(&stack_of(&[leaf])), false));
    assert!(context.can_visit(Some(&stack_of(&[root])), false));
    assert!(context.can_visit(None, false));
}

#[test]
fn spans_that_go_round_in_a_circle_have_no_trail() {
    let mut registry = Registry::default();
    let first = open(&mut registry, "first", None);
    let second = open(&mut registry, "second", None);
    let step = second.into_u64() - first.into_u64();
    let number = |i: u64| Id::from_u64(second.into_u64() + i * step);
    for i in 1..4 {
        assert_eq!(open(&mut registry, "circle", Some(number(i % 3 + 1))), number(i));
    }
    assert_eq!(registry.trail(&number(1)), None);
    let context = Context::new(&registry, &());
    assert!(!context.can_visit(Some(&stack_of(&[number(1)])), false));
}

#[test]
fn spans_that_are_parents_of_each_other_have_trails() {
    let mut registry = Registry::default();
    let first = open(&mut registry, "first", None);
    let second = open(&mut registry, "second", None);
    let step = second.into_u64() - first.into_u64();
    let number = |i: u64| Id::from_u64(second.into_u64() + i * step);
    assert_eq!(open(&mut registry, "one", Some(number(2))), number(1));
    assert_eq!(open(&mut registry, "two", Some(number(1))), number(2));
    assert_eq!(registry.trail(&number(2)), Some(vec![number(1), number(2)]));
    let context = Context::new(&registry, &());
    let (names, _) = context.visit_spans(Some(&stack_of(&[number(1)])), false, Vec::new(), collect);
    assert_eq!(names, ["two", "one"]);
}

#[test]
fn new_span_extends_the_trail_of_its_parent() {
    let mut registry = Registry::default();
    let root = open(&mut registry, "root", None);
    let middle = open(&mut registry, "middle", Some(root));
    let before = registry.trail(&middle).unwrap();
    let leaf = open(&mut registry, "leaf", Some(middle));
    assert_eq!(registry.trail(&middle), Some(before.clone()));
    let mut longer = before;
    longer.push(leaf);
    assert_eq!(registry.trail(&leaf), Some(longer));
}

#[test]
fn fields_are_formatted_by_the_formatter() {
    let registry = Registry::default();
    let formatter = |mut text: String, field: &str| {
        text.push_str(field);
        (text, field.len() < 3)
    };
    let context = Context::new(&registry, &formatter);
    assert_eq!(context.format_fields("a".to_string(), "b"), ("ab".to_string(), true));
    assert_eq!(context.format_fields("a".to_string(), "bcd"), ("abcd".to_string(), false));
}
