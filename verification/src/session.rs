//! The life of one run: the state is loaded once, edited while the window
//! is open, and written once when the window closes.

use crate::binary32::in_range;
use crate::record::{Lookup, LookupView, Persisted};
use crate::state::{edits, loaded, projection, Edit, StateView, TutorialApp};
use vstd::prelude::*;

verus! {

/// A run of the window. It starts uninitialized, runs from the load to the
/// close request, and is terminated afterwards.
#[derive(Debug)]
pub enum Session {
    /// Nothing was loaded yet.
    Uninitialized,
    /// The state is loaded and is being edited. `persistent` tells whether
    /// a store is configured.
    Running { state: TutorialApp, persistent: bool },
    /// The window was closed.
    Terminated,
}

/// The mathematical content of a [`Session`].
pub enum SessionView {
    Uninitialized,
    Running { state: StateView, persistent: bool },
    Terminated,
}

impl View for Session {
    type V = SessionView;

    open spec fn view(&self) -> SessionView {
        match *self {
            Session::Uninitialized => SessionView::Uninitialized,
            Session::Running { state, persistent } => SessionView::Running {
                state: state@,
                persistent,
            },
            Session::Terminated => SessionView::Terminated,
        }
    }
}

/// The session after a start: an uninitialized session runs with the
/// loaded state; any other session is as before.
pub open spec fn started(before: SessionView, lookup: LookupView) -> SessionView {
    match before {
        SessionView::Uninitialized => SessionView::Running {
            state: loaded(lookup),
            persistent: !(lookup is NoStorage),
        },
        _ => before,
    }
}

/// Whether `after` is what an edit makes of the session `before`: the edit
/// is applied to the state of a running session, and any other session is
/// as before.
pub open spec fn applies(before: SessionView, edit: Edit, after: SessionView) -> bool {
    match before {
        SessionView::Running { state, persistent } => {
            &&& after matches SessionView::Running { state: edited, persistent: kept }
            &&& kept == persistent
            &&& edits(state, edit, edited)
        },
        _ => after == before,
    }
}

/// The value of a running session lies within the range from 0.0 to 10.0;
/// a session that is not running has no value to speak of.
pub open spec fn value_in_range(session: SessionView) -> bool {
    session matches SessionView::Running { state, .. } ==> in_range(state.value)
}

/// The session after a stop: a running session is terminated; any other
/// session is as before.
pub open spec fn stopped(before: SessionView) -> SessionView {
    match before {
        SessionView::Running { .. } => SessionView::Terminated,
        _ => before,
    }
}

impl Session {
    /// A session in which nothing has happened yet.
    pub fn new() -> (session: Self)
        ensures
            session@ == SessionView::Uninitialized,
    {
        Session::Uninitialized
    }

    /// The state, while the session runs.
    pub fn state(&self) -> (state: Option<&TutorialApp>)
        ensures
            match self@ {
                SessionView::Running { state: running, .. } => state matches Some(s) && s@
                    == running,
                _ => state is None,
            },
    {
        match self {
            Session::Running { state, .. } => Some(state),
            _ => None,
        }
    }

    /// Starts the session with what looking for the stored record came to.
    /// Tells whether the session was started by this call: only an
    /// uninitialized session starts, and it then runs with the loaded
    /// state. Without a store nothing will be written at the end.
    pub fn start(&mut self, lookup: Lookup) -> (began: bool)
        ensures
            began == (old(self)@ is Uninitialized),
            final(self)@ == started(old(self)@, lookup@),
    {
        match self {
            Session::Uninitialized => {
                let persistent: bool = match lookup {
                    Lookup::NoStorage => false,
                    _ => true,
                };
                *self = Session::Running { state: TutorialApp::new(lookup), persistent };
                true
            },
            _ => false,
        }
    }

    /// Applies one edit to the state of a running session and tells
    /// whether the session was running. Any other session ignores the
    /// edit.
    pub fn apply(&mut self, edit: Edit) -> (applied: bool)
        ensures
            applied == (old(self)@ is Running),
            applies(old(self)@, edit, final(self)@),
            value_in_range(old(self)@) ==> value_in_range(final(self)@),
    {
        match self {
            Session::Running { state, .. } => {
                state.update(edit);
                true
            },
            _ => false,
        }
    }

    /// Stops a running session and hands out the record to write: the
    /// projection of the state as the last edit left it, where a store is
    /// configured. Without a store, and for a session that is not running,
    /// there is nothing to write.
    pub fn stop(&mut self) -> (record: Option<Persisted>)
        ensures
            final(self)@ == stopped(old(self)@),
            match old(self)@ {
                SessionView::Running { state, persistent: true } => record matches Some(r) && r@
                    == projection(state),
                _ => record is None,
            },
    {
        let record: Option<Persisted> = match self {
            Session::Running { state, persistent } => {
                if *persistent {
                    Some(state.save())
                } else {
                    None
                }
            },
            _ => {
                return None;
            },
        };
        *self = Session::Terminated;
        record
    }
}

} // verus!
