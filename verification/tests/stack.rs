use span_registry::{id_to_idx, idx_to_id, Id, SpanStack};

fn id(value: u64) -> Id {
    Id::from_u64(value)
}

#[test]
fn key_and_id_are_one_apart() {
    assert_eq!(idx_to_id(0).into_u64(), 1);
    assert_eq!(idx_to_id(41).into_u64(), 42);
    assert_eq!(id_to_idx(&id(1)), 0);
    assert_eq!(id_to_idx(&id(42)), 41);
}

#[test]
fn key_survives_round_trip() {
    for idx in [0usize, 1, 7, 1 << 20, usize::MAX - 1] {
        assert_eq!(id_to_idx(&idx_to_id(idx)), idx);
    }
}

#[test]
fn empty_stack_has_no_current_span() {
    let mut stack = SpanStack::new();
    assert_eq!(stack.current(), None);
    assert_eq!(stack.pop(&id(1)), None);
}

#[test]
fn pop_undoes_push() {
    let mut stack = SpanStack::new();
    stack.push(id(3));
    stack.push(id(5));
    assert_eq!(stack.current(), Some(&id(5)));
    assert_eq!(stack.pop(&id(5)), Some(id(5)));
    assert_eq!(stack.current(), Some(&id(3)));
    assert_eq!(stack.pop(&id(3)), Some(id(3)));
    assert_eq!(stack.current(), None);
}

#[test]
fn only_the_innermost_span_is_popped() {
    let mut stack = SpanStack::new();
    stack.push(id(3));
    stack.push(id(5));
    assert_eq!(stack.pop(&id(3)), None);
    assert_eq!(stack.current(), Some(&id(5)));
    assert_eq!(stack.pop(&id(5)), Some(id(5)));
}

#[test]
fn reentered_span_is_not_current_again() {
    let mut stack = SpanStack::new();
    stack.push(id(1));
    stack.push(id(2));
    stack.push(id(1));
    assert_eq!(stack.current(), Some(&id(2)));
    assert_eq!(stack.pop(&id(1)), Some(id(1)));
    assert_eq!(stack.current(), Some(&id(2)));
    assert_eq!(stack.pop(&id(2)), Some(id(2)));
    assert_eq!(stack.current(), Some(&id(1)));
}

#[test]
fn popped_span_can_be_entered_as_new() {
    let mut stack = SpanStack::new();
    stack.push(id(1));
    assert_eq!(stack.pop(&id(1)), Some(id(1)));
    stack.push(id(2));
    stack.push(id(1));
    assert_eq!(stack.current(), Some(&id(1)));
}

#[test]
fn duplicate_of_the_only_span_keeps_it_current() {
    let mut stack = SpanStack::new();
    stack.push(id(9));
    stack.push(id(9));
    assert_eq!(stack.current(), Some(&id(9)));
    assert_eq!(stack.pop(&id(9)), Some(id(9)));
    assert_eq!(stack.current(), Some(&id(9)));
    assert_eq!(stack.pop(&id(9)), Some(id(9)));
    assert_eq!(stack.current(), None);
}

#[test]
fn balanced_exits_restore_the_stack() {
    let mut stack = SpanStack::new();
    stack.push(id(1));
    let ids = [id(2), id(3), id(2), id(4)];
    for entered in ids {
        stack.push(entered);
    }
    for exited in ids.iter().rev() {
        assert_eq!(stack.pop(exited), Some(*exited));
    }
    assert_eq!(stack.current(), Some(&id(1)));
    assert_eq!(stack.pop(&id(1)), Some(id(1)));
    assert_eq!(stack.pop(&id(1)), None);
}
