use fixdim::Ptr;

#[test]
fn new_then_read_gives_initial_value() {
    let p = Ptr::new(41u64);
    assert_eq!(p.clone_inner(), 41);
}

#[test]
fn read_after_set_gives_stored_value() {
    let mut p = Ptr::new(1u64);
    p.set(7);
    assert_eq!(p.clone_inner(), 7);
    p.set(9);
    assert_eq!(p.clone_inner(), 9);
}

#[test]
fn set_replaces_not_appends() {
    let mut p = Ptr::new(vec![1u8, 2, 3]);
    p.set(vec![4u8]);
    assert_eq!(p.clone_inner(), vec![4u8]);
}

#[test]
fn snapshot_is_isolated_from_cell() {
    let p = Ptr::new(vec![1u32, 2]);
    let mut first = p.clone_inner();
    first.push(3);
    first[0] = 100;
    assert_eq!(first, vec![100u32, 2, 3]);
    assert_eq!(p.clone_inner(), vec![1u32, 2]);
}

#[test]
fn reads_are_repeatable() {
    let p = Ptr::new(String::from("cell"));
    let a = p.clone_inner();
    let b = p.clone_inner();
    assert_eq!(a, b);
    assert_eq!(a, "cell");
}

fn require_shareable<X: Send + Sync>(_: &X) {}

#[test]
fn cell_handle_can_be_shared_between_threads() {
    let p = Ptr::new(5u64);
    require_shareable(&p);
    assert_eq!(p.clone_inner(), 5);
}
