use genoise::sync::SyncRefCell;

#[test]
fn sync_cell_cycles_observe_the_last_write() {
    let mut cell = SyncRefCell::new(String::from("first"));
    let mut guard = cell.borrow_mut();
    assert_eq!(guard.get(), "first");
    assert_eq!(guard.replace(String::from("second")), "first");
    assert_eq!(guard.get(), "second");
    cell.release(guard);

    let guard = cell.borrow_mut();
    assert_eq!(guard.get(), "second");
    cell.release(guard);

    assert_eq!(cell.replace(String::from("third")), "second");
    assert_eq!(cell.replace(String::from("fourth")), "third");
    let guard = cell.borrow_mut();
    assert_eq!(guard.get(), "fourth");
    cell.release(guard);
}
