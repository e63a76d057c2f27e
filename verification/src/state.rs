//! Reactive state management

use vstd::prelude::*;

verus! {

/// A simple observer trait for state changes.
pub trait StateListener<T> {
    fn on_change(&mut self, new_value: &T);
}

/// State holds a value and notifies listeners on change.
/// Uses heapless::Vec for no-alloc listener storage.
#[verifier::reject_recursive_types(T)]
pub struct State<T: 'static, const N: usize> {
    value: T,
    listeners: heapless::Vec<&'static mut dyn StateListener<T>, N>,
    /// How many listeners the list has taken in.
    registered: Ghost<nat>,
}

/// `heapless::Vec::new`, for a list of listeners. Nothing is claimed of the
/// list it returns.
#[verifier::external_body]
fn no_listeners<T, const N: usize>() -> (list: heapless::Vec<&'static mut dyn StateListener<T>, N>) {
    heapless::Vec::new()
}

/// `heapless::Vec::push`, for a list of listeners. Nothing is claimed of
/// when it takes the listener in and when it hands it back.
#[verifier::external_body]
fn push_listener<L, const N: usize>(listener: L, list: &mut heapless::Vec<L, N>) -> (r: Result<(), L>) {
    list.push(listener)
}

/// `heapless::Vec::as_mut_slice`, for a list of listeners. Nothing is
/// claimed of the slice it returns.
#[verifier::external_body]
fn listeners_mut<'a, T, const N: usize>(
    list: &'a mut heapless::Vec<&'static mut dyn StateListener<T>, N>,
) -> (all: &'a mut [&'static mut dyn StateListener<T>]) {
    list.as_mut_slice()
}

/// What registering a listener returns for what the listener list answered
/// to the push: success where the list took the listener in, failure where
/// it handed the listener back.
pub fn registration<L>(pushed: Result<(), L>) -> (r: Result<(), ()>)
    ensures
        r is Ok <==> pushed is Ok,
{
    match pushed {
        Ok(()) => Ok(()),
        Err(_) => Err(()),
    }
}

impl<T, const N: usize> State<T, N> {
    /// The value that the state holds.
    pub closed spec fn current(&self) -> T {
        self.value
    }

    /// How many listeners the state has taken in.
    pub closed spec fn listener_count(&self) -> nat {
        self.registered@
    }

    /// A state that holds `value` and has no listeners.
    pub fn new(value: T) -> (state: Self)
        ensures
            state.current() == value,
            state.listener_count() == 0,
    {
        Self { value, listeners: no_listeners(), registered: Ghost(0) }
    }

    /// The value that the state holds.
    pub fn get(&self) -> (value: &T)
        ensures
            *value == self.current(),
    {
        &self.value
    }

    /// Stores `value` and tells every listener of it, in the order they were added.
    pub fn set(&mut self, value: T)
        ensures
            final(self).current() == value,
            final(self).listener_count() == old(self).listener_count(),
    {
        self.value = value;
        let all = listeners_mut(&mut self.listeners);
        let n = all.len();
        let mut i: usize = 0;
        while i < n
            invariant
                all@.len() == n,
                self.value == value,
                self.registered == old(self).registered,
            decreases n - i,
        {
            all[i].on_change(&self.value);
            i += 1;
        }
    }

    /// Register a listener for state changes. Whether the listener is taken
    /// in is for the listener list to say: where this returns `Ok`, the state
    /// has one listener more, and where it returns `Err`, as many as before.
    /// The value stays as it is either way.
    pub fn add_listener(&mut self, listener: &'static mut dyn StateListener<T>) -> (r: Result<(), ()>)
        ensures
            final(self).current() == old(self).current(),
            r is Ok ==> final(self).listener_count() == old(self).listener_count() + 1,
            r is Err ==> final(self).listener_count() == old(self).listener_count(),
    {
        let r = registration(push_listener(listener, &mut self.listeners));
        if r.is_ok() {
            self.registered = Ghost(self.registered@ + 1);
        }
        r
    }
}

/// Example listener implementation
pub struct DummyListener;

impl StateListener<u32> for DummyListener {
    /// Handle the state change (e.g., trigger redraw)
    fn on_change(&mut self, new_value: &u32) {
    }
}

} // verus!
