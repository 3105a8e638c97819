//! The callback registry: registration, the remove–call–reinsert dispatch
//! protocol, re-arming, one-shot keys, and self-rebinding.

use std::cell::RefCell;
use std::rc::Rc;

use afrish::eval_callback0;
use afrish::eval_callback1;
use afrish::CallbackStore;

#[test]
fn insert_take_and_contains() {
    let mut store: CallbackStore<u32> = CallbackStore::new();
    assert!(!store.contains(".b1"));
    store.insert(".b1", 7);
    assert!(store.contains(".b1"));
    store.insert(".b1", 8);
    assert_eq!(Some(8), store.take(".b1"));
    assert!(!store.contains(".b1"));
    assert_eq!(None, store.take(".b1"));
}

#[test]
fn rearm_restores_unless_replaced() {
    let mut store: CallbackStore<u32> = CallbackStore::new();
    store.insert("k", 1);
    let taken = store.take("k").unwrap();
    store.rearm("k", taken);
    assert_eq!(Some(1), store.take("k"));

    // a replacement installed between take and rearm wins
    store.insert("k", 1);
    let taken = store.take("k").unwrap();
    store.insert("k", 2);
    store.rearm("k", taken);
    assert_eq!(Some(2), store.take("k"));
}

#[test]
fn dispatch_invokes_once_and_rearms() {
    let mut store: CallbackStore<Box<dyn Fn()>> = CallbackStore::new();
    let count = Rc::new(RefCell::new(0u32));
    let seen = count.clone();
    store.insert(".b1", Box::new(move || *seen.borrow_mut() += 1));
    eval_callback0(&mut store, ".b1");
    assert_eq!(1, *count.borrow());
    // the callback stayed registered, so a second trigger fires it again
    eval_callback0(&mut store, ".b1");
    assert_eq!(2, *count.borrow());
    assert!(store.contains(".b1"));
}

#[test]
fn dispatch_for_unregistered_key_is_a_no_op() {
    let mut store: CallbackStore<Box<dyn Fn()>> = CallbackStore::new();
    let count = Rc::new(RefCell::new(0u32));
    let seen = count.clone();
    store.insert(".b1", Box::new(move || *seen.borrow_mut() += 1));
    eval_callback0(&mut store, ".b9");
    assert_eq!(0, *count.borrow());
    assert!(store.contains(".b1"));
    assert!(!store.contains(".b9"));
}

#[test]
fn one_shot_keys_fire_once_only() {
    let mut store: CallbackStore<Box<dyn Fn()>> = CallbackStore::new();
    let count = Rc::new(RefCell::new(0u32));
    let seen = count.clone();
    store.insert("after-42", Box::new(move || *seen.borrow_mut() += 1));
    eval_callback0(&mut store, "after-42");
    assert_eq!(1, *count.borrow());
    assert!(!store.contains("after-42"));
    eval_callback0(&mut store, "after-42");
    assert_eq!(1, *count.borrow());
}

#[test]
fn bool_dispatch_hands_the_value_over() {
    let mut store: CallbackStore<Box<dyn Fn(bool)>> = CallbackStore::new();
    let last = Rc::new(RefCell::new(None));
    let seen = last.clone();
    store.insert(".cb2", Box::new(move |value| *seen.borrow_mut() = Some(value)));
    eval_callback1(&mut store, ".cb2", true);
    assert_eq!(Some(true), *last.borrow());
    eval_callback1(&mut store, ".cb2", false);
    assert_eq!(Some(false), *last.borrow());
    assert!(store.contains(".cb2"));
}

#[test]
fn event_dispatch_hands_the_payload_over() {
    let mut store: CallbackStore<Box<dyn Fn(afrish::TkEvent)>> = CallbackStore::new();
    let last = Rc::new(RefCell::new((0i64, 0i64)));
    let seen = last.clone();
    store.insert(".b1", Box::new(move |event: afrish::TkEvent| {
        *seen.borrow_mut() = (event.x, event.y);
    }));
    match afrish::classify_line("cb1e:.b1:10:20:110:220:50:80:65:a:1") {
        afrish::Notification::EventFired(pattern, event) => {
            eval_callback1(&mut store, &pattern, event);
        },
        _ => panic!("expected a structured event"),
    }
    assert_eq!((10, 20), *last.borrow());
}
