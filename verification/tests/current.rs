use span_registry::{CurrentSpan, Id};

#[test]
fn thread_outside_of_a_span_has_no_id() {
    let mut current = CurrentSpan::new();
    assert_eq!(current.id(0), None);
    current.exit(0);
    assert_eq!(current.id(0), None);
}

#[test]
fn exit_undoes_enter() {
    let mut current = CurrentSpan::new();
    current.enter(4, Id::from_u64(10));
    current.enter(4, Id::from_u64(11));
    assert_eq!(current.id(4), Some(Id::from_u64(11)));
    current.exit(4);
    assert_eq!(current.id(4), Some(Id::from_u64(10)));
    current.exit(4);
    assert_eq!(current.id(4), None);
}

#[test]
fn reentered_span_is_innermost() {
    let mut current = CurrentSpan::new();
    current.enter(0, Id::from_u64(1));
    current.enter(0, Id::from_u64(2));
    current.enter(0, Id::from_u64(1));
    assert_eq!(current.id(0), Some(Id::from_u64(1)));
}

#[test]
fn threads_do_not_see_each_other() {
    let mut current = CurrentSpan::new();
    current.enter(1, Id::from_u64(10));
    current.enter(2, Id::from_u64(20));
    assert_eq!(current.id(1), Some(Id::from_u64(10)));
    assert_eq!(current.id(2), Some(Id::from_u64(20)));
    assert_eq!(current.id(3), None);
    current.exit(1);
    assert_eq!(current.id(1), None);
    assert_eq!(current.id(2), Some(Id::from_u64(20)));
}
