use std::cell::RefCell;
use std::rc::Rc;

use forgotten::global;

struct MyValue {
    v: String,
    log: Rc<RefCell<Vec<String>>>,
}

impl Drop for MyValue {
    fn drop(&mut self) {
        self.log.borrow_mut().push(self.v.clone());
    }
}

#[test]
fn test_drop_key_1() {
    let dropped: Rc<RefCell<Vec<String>>> = Rc::new(RefCell::new(vec![]));
    let mut reg = global::Forgotten::<MyValue>::new();

    let v = MyValue { v: "some value".to_string(), log: dropped.clone() };

    assert_eq!((reg.cur(), reg.len()), (0, 0));

    let k = global::forget(&mut reg, v);

    assert_eq!((reg.cur(), reg.len()), (1, 1));

    assert_eq!(*k.as_usize(), 1);

    let rc = global::get(&reg, &k);

    assert_eq!(rc.v, "some value");

    assert_eq!((reg.cur(), reg.len()), (1, 1));

    global::free(&mut reg, k);

    assert_eq!((reg.cur(), reg.len()), (1, 0));

    assert_eq!(dropped.borrow().len(), 0);

    drop(rc);

    assert_eq!(*dropped.borrow(), ["some value"]);
}

#[test]
fn test_drop_key_1_1() {
    let mut reg = global::Forgotten::<MyValue>::new();

    // First, the same story as test_drop_key_1, so the counter rests on 1.
    let dropped_first: Rc<RefCell<Vec<String>>> = Rc::new(RefCell::new(vec![]));
    let first = MyValue { v: "some value".to_string(), log: dropped_first.clone() };
    let k = global::forget(&mut reg, first);
    let rc = global::get(&reg, &k);
    global::free(&mut reg, k);
    drop(rc);
    assert_eq!(*dropped_first.borrow(), ["some value"]);

    let dropped: Rc<RefCell<Vec<String>>> = Rc::new(RefCell::new(vec![]));

    let v = MyValue { v: "some value 2".to_string(), log: dropped.clone() };

    assert_eq!((reg.cur(), reg.len()), (1, 0));

    let k = global::forget(&mut reg, v);

    assert_eq!((reg.cur(), reg.len()), (2, 1));

    assert_eq!(*k.as_usize(), 2);

    let rc = global::get(&reg, &k);

    assert_eq!(rc.v, "some value 2");

    assert_eq!((reg.cur(), reg.len()), (2, 1));

    global::free(&mut reg, k);

    assert_eq!((reg.cur(), reg.len()), (2, 0));

    assert_eq!(dropped.borrow().len(), 0);

    drop(rc);

    assert_eq!(*dropped.borrow(), ["some value 2"]);
}

#[test]
fn test_drop_key_2() {
    let dropped: Rc<RefCell<Vec<String>>> = Rc::new(RefCell::new(vec![]));
    let mut reg = global::Forgotten::<MyValue>::new();

    assert_eq!((reg.cur(), reg.len()), (0, 0));

    let v = MyValue { v: "some value".to_string(), log: dropped.clone() };

    let k = global::forget(&mut reg, v);

    assert_eq!((reg.cur(), reg.len()), (1, 1));

    assert_eq!(*k.as_usize(), 1);

    let rc = global::get(&reg, &k);

    assert_eq!(rc.v, "some value");

    assert_eq!((reg.cur(), reg.len()), (1, 1));

    let v2 = MyValue { v: "some value 2".to_string(), log: dropped.clone() };

    let k2 = global::forget(&mut reg, v2);

    assert_eq!((reg.cur(), reg.len()), (2, 2));

    assert_eq!(*k2.as_usize(), 2);

    let rc2 = global::get(&reg, &k2);

    assert_eq!(rc2.v, "some value 2");

    assert_eq!((reg.cur(), reg.len()), (2, 2));

    global::free(&mut reg, k);

    assert_eq!((reg.cur(), reg.len()), (2, 1));

    {
        assert_eq!(*k2.as_usize(), 2);

        let rc2 = global::get(&reg, &k2);

        assert_eq!(rc2.v, "some value 2");

        assert_eq!((reg.cur(), reg.len()), (2, 1));
    }

    global::free(&mut reg, k2);

    assert_eq!((reg.cur(), reg.len()), (2, 0));

    assert_eq!(dropped.borrow().len(), 0);

    drop(rc2);

    assert_eq!(*dropped.borrow(), ["some value 2"]);

    drop(rc);

    assert_eq!(*dropped.borrow(), ["some value 2", "some value"]);
}

#[test]
fn test_shared_key() {
    let dropped: Rc<RefCell<Vec<String>>> = Rc::new(RefCell::new(vec![]));
    let mut reg = global::Forgotten::<MyValue>::new();

    assert_eq!((reg.cur(), reg.len()), (0, 0));

    let v = MyValue { v: "some value".to_string(), log: dropped.clone() };

    let k = global::forget(&mut reg, v);

    assert_eq!((reg.cur(), reg.len()), (1, 1));

    assert_eq!(*k.as_usize(), 1);

    let k = k.into_shared();

    assert_eq!((reg.cur(), reg.len()), (1, 1));

    {
        let rc = global::try_get(&reg, &k);

        assert!(if let Some(v) = rc { v.v == "some value" } else { false });
    }

    let k1 = k.clone();

    assert_eq!((reg.cur(), reg.len()), (1, 1));

    drop(k);

    assert_eq!((reg.cur(), reg.len()), (1, 1));

    {
        let rc1 = global::try_get(&reg, &k1);

        assert_eq!(dropped.borrow().len(), 0);

        assert!(if let Some(v) = &rc1 { v.v == "some value" } else { false });

        assert_eq!(dropped.borrow().len(), 0);

        assert!(global::try_free(&mut reg, &k1));

        assert_eq!((reg.cur(), reg.len()), (1, 0));

        assert!(global::try_get(&reg, &k1).is_none());
        assert!(!global::try_free(&mut reg, &k1));

        assert_eq!((reg.cur(), reg.len()), (1, 0));

        assert_eq!(dropped.borrow().len(), 0);
    }

    assert_eq!(*dropped.borrow(), ["some value"]);
}

#[test]
fn test_dropped_shared_key() {
    let dropped: Rc<RefCell<Vec<String>>> = Rc::new(RefCell::new(vec![]));
    let mut reg = global::Forgotten::<MyValue>::new();

    assert_eq!((reg.cur(), reg.len()), (0, 0));

    {
        let v = MyValue { v: "some value".to_string(), log: dropped.clone() };

        let k = global::forget(&mut reg, v);

        assert_eq!((reg.cur(), reg.len()), (1, 1));

        assert_eq!(*k.as_usize(), 1);

        k.into_shared();
    }

    assert_eq!(dropped.borrow().len(), 0);

    assert_eq!((reg.cur(), reg.len()), (1, 1));

    {
        let k1 = global::SharedForgottenKey::<MyValue>::from_usize(1);
        let rc1 = global::try_get(&reg, &k1);

        assert!(if let Some(v) = &rc1 { v.v == "some value" } else { false });

        assert_eq!((reg.cur(), reg.len()), (1, 1));

        assert_eq!(dropped.borrow().len(), 0);

        assert!(global::try_free(&mut reg, &k1));

        assert_eq!((reg.cur(), reg.len()), (1, 0));

        assert!(global::try_get(&reg, &k1).is_none());
        assert!(!global::try_free(&mut reg, &k1));

        assert_eq!((reg.cur(), reg.len()), (1, 0));

        assert_eq!(dropped.borrow().len(), 0);
    }

    assert_eq!(*dropped.borrow(), ["some value"]);
}
