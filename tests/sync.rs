use genoise::sync::{Gn, StackGn};

fn assert_impl<T: Send + Sync>() {}

#[test]
fn check_heap_gn_is_send_and_sync() {
    assert_impl::<Gn<(), (), (), ()>>();
}

#[test]
fn check_stack_gn_is_send_and_sync() {
    assert_impl::<StackGn<(), (), (), ()>>();
}
