use std::any::TypeId;

struct NotClone {
    _val: u8,
}

#[test]
fn key_test_clone_eq() {
    let a = forgotten::key::SharedForgottenKey::<NotClone>::new(1);

    let b = a.clone();

    assert!(a == b);
}

#[test]
fn shared_key_test_clone_eq() {
    let a = forgotten::global::SharedForgottenKey::<NotClone>::from_usize(1);

    let b = a.clone();

    assert!(a == b);
}

#[test]
fn shared_key_type_and_usize() {
    let a = forgotten::global::SharedForgottenKey::<u32>::from_usize(9);
    let (tag, n) = a.into_type_and_usize();
    assert_eq!(n, 9);
    assert_eq!(tag, TypeId::of::<u32>());
    assert_ne!(tag, TypeId::of::<u64>());
}

#[test]
fn any_key_clone_eq() {
    let a = forgotten::key::AnyForgottenKey::new(3);
    let b = a;
    assert!(a == b);
    assert_eq!(a.as_u32(), 3);
}

#[test]
fn typed_key_carries_handle() {
    let a = forgotten::key::ForgottenKey::<NotClone>::new(17);
    assert_eq!(a.as_u32(), 17);
}
