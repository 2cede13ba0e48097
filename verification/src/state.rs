//! The run-wide settings store. An explicit value owned by the caller and
//! threaded to whoever needs it — no global, no hidden mutation.

use vstd::prelude::*;

verus! {

/// The settings the flags can switch on.
#[derive(Clone, Copy, Debug, PartialEq, Eq, Structural)]
pub struct Store {
    pub verbose_enabled: bool,
    pub error_enabled: bool,
}

/// Owns one settings store for the whole run.
#[derive(Debug)]
pub struct State {
    store: Store,
}

impl State {
    /// A fresh state with every setting off.
    pub fn new() -> (r: State)
        ensures
            !r.store().verbose_enabled,
            !r.store().error_enabled,
    {
        State { store: Store { verbose_enabled: false, error_enabled: false } }
    }

    /// The current settings.
    pub closed spec fn store(&self) -> Store {
        self.store
    }

    /// Reads the current settings.
    pub fn lock(&self) -> (r: Store)
        ensures
            r == self.store(),
    {
        self.store
    }

    /// Switches verbose mode on.
    pub fn enable_verbose(&mut self)
        ensures
            final(self).store() == (Store { verbose_enabled: true, ..old(self).store() }),
    {
        self.store.verbose_enabled = true;
    }

    /// Switches error mode on.
    pub fn enable_error(&mut self)
        ensures
            final(self).store() == (Store { error_enabled: true, ..old(self).store() }),
    {
        self.store.error_enabled = true;
    }
}

} // verus!
