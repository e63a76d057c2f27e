use ferrogl::state::{registration, DummyListener, State, StateListener};
use std::cell::RefCell;
use std::rc::Rc;

struct Recorder {
    name: u32,
    seen: Rc<RefCell<Vec<(u32, u32)>>>,
}

impl StateListener<u32> for Recorder {
    fn on_change(&mut self, new_value: &u32) {
        self.seen.borrow_mut().push((self.name, *new_value));
    }
}

fn recorder(name: u32, seen: &Rc<RefCell<Vec<(u32, u32)>>>) -> &'static mut dyn StateListener<u32> {
    Box::leak(Box::new(Recorder { name, seen: seen.clone() }))
}

#[test]
fn new_state_holds_its_value() {
    let state: State<u32, 4> = State::new(5);
    assert_eq!(*state.get(), 5);
}

#[test]
fn set_replaces_the_value() {
    let mut state: State<u32, 4> = State::new(5);
    state.set(9);
    assert_eq!(*state.get(), 9);
}

#[test]
fn set_tells_every_listener_in_order() {
    let seen = Rc::new(RefCell::new(Vec::new()));
    let mut state: State<u32, 4> = State::new(0);
    assert_eq!(state.add_listener(recorder(1, &seen)), Ok(()));
    assert_eq!(state.add_listener(recorder(2, &seen)), Ok(()));
    assert!(seen.borrow().is_empty());
    state.set(7);
    state.set(8);
    assert_eq!(*seen.borrow(), vec![(1, 7), (2, 7), (1, 8), (2, 8)]);
    assert_eq!(*state.get(), 8);
}

#[test]
fn add_listener_fails_when_the_state_is_full() {
    let seen = Rc::new(RefCell::new(Vec::new()));
    let mut state: State<u32, 2> = State::new(3);
    assert_eq!(state.add_listener(recorder(1, &seen)), Ok(()));
    assert_eq!(state.add_listener(recorder(2, &seen)), Ok(()));
    assert_eq!(state.add_listener(recorder(3, &seen)), Err(()));
    assert_eq!(*state.get(), 3);
    state.set(4);
    assert_eq!(*seen.borrow(), vec![(1, 4), (2, 4)]);
}

#[test]
fn dummy_listener_accepts_changes() {
    let mut state: State<u32, 1> = State::new(0);
    let listener: &'static mut DummyListener = Box::leak(Box::new(DummyListener));
    assert_eq!(state.add_listener(listener), Ok(()));
    state.set(1);
    assert_eq!(*state.get(), 1);
    let mut direct = DummyListener;
    direct.on_change(&2);
}

#[test]
fn registration_follows_what_the_list_answered() {
    assert_eq!(registration::<u32>(Ok(())), Ok(()));
    assert_eq!(registration(Err(7u32)), Err(()));
    assert_eq!(registration(Err("handed back")), Err(()));
}

#[test]
fn add_listener_keeps_taking_listeners_in_until_the_state_is_full() {
    let seen = Rc::new(RefCell::new(Vec::new()));
    let mut state: State<u32, 3> = State::new(0);
    for name in 0..3 {
        assert_eq!(state.add_listener(recorder(name, &seen)), Ok(()));
    }
    assert_eq!(state.add_listener(recorder(3, &seen)), Err(()));
    assert_eq!(state.add_listener(recorder(4, &seen)), Err(()));
    state.set(9);
    assert_eq!(*seen.borrow(), vec![(0, 9), (1, 9), (2, 9)]);
}
