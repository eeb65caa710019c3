use eframe_tutorial::state::DEFAULT_CODE;
use eframe_tutorial::{Edit, Lookup, Session, Stored};

fn running(lookup: Lookup) -> Session {
    let mut session = Session::new();
    assert!(session.start(lookup));
    session
}

#[test]
fn new_session_has_no_state() {
    let session = Session::new();
    assert!(matches!(session, Session::Uninitialized));
    assert!(session.state().is_none());
}

#[test]
fn start_loads_the_state() {
    let session = running(Lookup::Found(Stored {
        label: Some(String::from("mine")),
        value: None,
        language: None,
    }));
    let state = session.state().unwrap();
    assert_eq!(state.label(), "mine");
    assert_eq!(f32::from_bits(state.value()), 10.0);
    assert_eq!(state.language(), "rs");
    assert_eq!(state.code(), DEFAULT_CODE);
}

#[test]
fn start_happens_once() {
    let mut session = running(Lookup::Missing);
    assert!(session.apply(Edit::Label(String::from("edited"))));
    assert!(!session.start(Lookup::Found(Stored {
        label: Some(String::from("other")),
        value: None,
        language: None,
    })));
    assert_eq!(session.state().unwrap().label(), "edited");
}

#[test]
fn edits_before_the_start_are_ignored() {
    let mut session = Session::new();
    assert!(!session.apply(Edit::Increment));
    assert!(matches!(session, Session::Uninitialized));
    assert!(session.stop().is_none());
    assert!(matches!(session, Session::Uninitialized));
}

#[test]
fn stop_writes_the_state_as_last_edited() {
    let mut session = running(Lookup::Missing);
    assert!(session.apply(Edit::Label(String::from("last"))));
    assert!(session.apply(Edit::Slider(5.0f32.to_bits())));
    assert!(session.apply(Edit::Increment));
    assert!(session.apply(Edit::Language(String::from("lua"))));
    assert!(session.apply(Edit::Code(String::from("print(1)"))));
    let record = session.stop().unwrap();
    assert_eq!(record.label, "last");
    assert_eq!(f32::from_bits(record.value), 6.0);
    assert_eq!(record.language, "lua");
    assert!(matches!(session, Session::Terminated));
}

#[test]
fn stop_without_storage_writes_nothing() {
    let mut session = running(Lookup::NoStorage);
    assert!(session.apply(Edit::Decrement));
    assert_eq!(f32::from_bits(session.state().unwrap().value()), 9.0);
    assert!(session.stop().is_none());
    assert!(matches!(session, Session::Terminated));
}

#[test]
fn stop_after_a_corrupt_record_overwrites_it() {
    let mut session = running(Lookup::Corrupt);
    let record = session.stop().unwrap();
    assert_eq!(record.label, "Hello World!");
    assert_eq!(f32::from_bits(record.value), 10.0);
    assert_eq!(record.language, "rs");
}

#[test]
fn terminated_session_ignores_everything() {
    let mut session = running(Lookup::Missing);
    assert!(session.stop().is_some());
    assert!(session.state().is_none());
    assert!(!session.apply(Edit::Increment));
    assert!(!session.start(Lookup::Missing));
    assert!(session.stop().is_none());
    assert!(matches!(session, Session::Terminated));
}

#[test]
fn next_run_starts_from_what_was_written() {
    let mut first = running(Lookup::Missing);
    assert!(first.apply(Edit::Label(String::from("carried"))));
    assert!(first.apply(Edit::Slider(1.25f32.to_bits())));
    assert!(first.apply(Edit::Code(String::from("dropped"))));
    let record = first.stop().unwrap();
    let second = running(Lookup::Found(record.into_stored()));
    let state = second.state().unwrap();
    assert_eq!(state.label(), "carried");
    assert_eq!(f32::from_bits(state.value()), 1.25);
    assert_eq!(state.language(), "rs");
    assert_eq!(state.code(), DEFAULT_CODE);
}
