use eframe_tutorial::state::{DEFAULT_CODE, DEFAULT_LABEL, DEFAULT_LANGUAGE};
use eframe_tutorial::{Edit, Lookup, Persisted, Stored, TutorialApp};

fn bits(value: f32) -> u32 {
    value.to_bits()
}

fn assert_default(state: &TutorialApp) {
    assert_eq!(state.label(), "Hello World!");
    assert_eq!(f32::from_bits(state.value()), 10.0);
    assert_eq!(state.language(), "rs");
    assert_eq!(state.code(), "\nfn main() {\n\tprintln!(\"Hello rust!\");\n}\n");
}

#[test]
fn default_state_has_the_documented_fields() {
    let state = TutorialApp::default();
    assert_default(&state);
    assert_eq!(state.value(), 0x4120_0000);
}

#[test]
fn default_code_is_byte_identical_across_calls() {
    let first = TutorialApp::default();
    let second = TutorialApp::default();
    assert_eq!(first.code().as_bytes(), second.code().as_bytes());
    assert_eq!(
        first.code().as_bytes(),
        b"\nfn main() {\n\tprintln!(\"Hello rust!\");\n}\n"
    );
    assert_eq!(first.code().len(), 41);
    assert_eq!(first.label(), second.label());
    assert_eq!(first.value(), second.value());
    assert_eq!(first.language(), second.language());
}

#[test]
fn default_constants_are_the_default_fields() {
    let state = TutorialApp::default();
    assert_eq!(state.label(), DEFAULT_LABEL);
    assert_eq!(state.language(), DEFAULT_LANGUAGE);
    assert_eq!(state.code(), DEFAULT_CODE);
}

#[test]
fn load_without_storage_is_the_default() {
    assert_default(&TutorialApp::new(Lookup::NoStorage));
}

#[test]
fn load_without_a_record_is_the_default() {
    assert_default(&TutorialApp::new(Lookup::Missing));
}

#[test]
fn load_without_storage_equals_load_without_a_record() {
    let unconfigured = TutorialApp::new(Lookup::NoStorage);
    let empty = TutorialApp::new(Lookup::Missing);
    assert_eq!(unconfigured.label(), empty.label());
    assert_eq!(unconfigured.value(), empty.value());
    assert_eq!(unconfigured.language(), empty.language());
    assert_eq!(unconfigured.code(), empty.code());
}

#[test]
fn loads_without_a_readable_record_are_equal() {
    let fresh = TutorialApp::default();
    assert_eq!(TutorialApp::new(Lookup::NoStorage), fresh);
    assert_eq!(TutorialApp::new(Lookup::Missing), fresh);
    assert_eq!(TutorialApp::new(Lookup::Corrupt), fresh);
}

#[test]
fn load_of_a_corrupt_record_is_the_default() {
    assert_default(&TutorialApp::new(Lookup::Corrupt));
}

#[test]
fn load_takes_every_stored_field() {
    let state = TutorialApp::new(Lookup::Found(Stored {
        label: Some(String::from("saved")),
        value: Some(bits(2.5)),
        language: Some(String::from("py")),
    }));
    assert_eq!(state.label(), "saved");
    assert_eq!(f32::from_bits(state.value()), 2.5);
    assert_eq!(state.language(), "py");
    assert_eq!(state.code(), DEFAULT_CODE);
}

#[test]
fn load_without_language_takes_the_default_language() {
    let state = TutorialApp::new(Lookup::Found(Stored {
        label: Some(String::from("older")),
        value: Some(bits(3.0)),
        language: None,
    }));
    assert_eq!(state.label(), "older");
    assert_eq!(f32::from_bits(state.value()), 3.0);
    assert_eq!(state.language(), "rs");
    assert_eq!(state.code(), DEFAULT_CODE);
}

#[test]
fn load_of_an_empty_record_is_the_default() {
    assert_default(&TutorialApp::new(Lookup::Found(Stored {
        label: None,
        value: None,
        language: None,
    })));
}

#[test]
fn load_without_label_or_value_takes_their_defaults() {
    let state = TutorialApp::new(Lookup::Found(Stored {
        label: None,
        value: None,
        language: Some(String::from("toml")),
    }));
    assert_eq!(state.label(), "Hello World!");
    assert_eq!(f32::from_bits(state.value()), 10.0);
    assert_eq!(state.language(), "toml");
}

#[test]
fn load_does_not_check_the_stored_value() {
    let state = TutorialApp::new(Lookup::Found(Stored {
        label: None,
        value: Some(bits(42.0)),
        language: None,
    }));
    assert_eq!(f32::from_bits(state.value()), 42.0);
}

#[test]
fn save_leaves_out_the_code() {
    let mut state = TutorialApp::default();
    state.set_label(String::from("note"));
    assert!(state.set_value(bits(4.25)));
    state.set_language(String::from("c"));
    state.set_code(String::from("int main() { return 0; }"));
    let Persisted { label, value, language } = state.save();
    assert_eq!(label, "note");
    assert_eq!(f32::from_bits(value), 4.25);
    assert_eq!(language, "c");
}

#[test]
fn save_then_load_keeps_all_but_the_code() {
    let mut state = TutorialApp::default();
    state.set_label(String::from("caf\u{e9} \u{1f980}"));
    assert!(state.set_value(bits(7.125)));
    state.set_language(String::from("not-a-language"));
    state.set_code(String::from("something else\nentirely"));
    let loaded = TutorialApp::new(Lookup::Found(state.save().into_stored()));
    assert_eq!(loaded.label(), "caf\u{e9} \u{1f980}");
    assert_eq!(loaded.value(), bits(7.125));
    assert_eq!(loaded.language(), "not-a-language");
    assert_eq!(loaded.code(), DEFAULT_CODE);
    assert_ne!(loaded.code(), state.code());
}

#[test]
fn save_then_load_keeps_a_value_outside_the_range() {
    let stored = Stored { label: None, value: Some(bits(-3.5)), language: None };
    let state = TutorialApp::new(Lookup::Found(stored));
    let again = TutorialApp::new(Lookup::Found(state.save().into_stored()));
    assert_eq!(again.value(), bits(-3.5));
}

#[test]
fn written_record_reads_back_complete() {
    let stored = TutorialApp::default().save().into_stored();
    assert_eq!(stored.label, Some(String::from("Hello World!")));
    assert_eq!(stored.value, Some(bits(10.0)));
    assert_eq!(stored.language, Some(String::from("rs")));
}

#[test]
fn set_label_replaces_only_the_label() {
    let mut state = TutorialApp::default();
    state.set_label(String::new());
    assert_eq!(state.label(), "");
    assert_eq!(state.value(), bits(10.0));
    assert_eq!(state.language(), "rs");
    assert_eq!(state.code(), DEFAULT_CODE);
}

#[test]
fn set_code_replaces_only_the_code() {
    let mut state = TutorialApp::default();
    state.set_code(String::from("a\nb\n"));
    assert_eq!(state.code(), "a\nb\n");
    assert_eq!(state.label(), "Hello World!");
    assert_eq!(state.value(), bits(10.0));
    assert_eq!(state.language(), "rs");
}

#[test]
fn set_language_takes_any_text() {
    let mut state = TutorialApp::default();
    state.set_language(String::from("??"));
    assert_eq!(state.language(), "??");
    assert_eq!(state.label(), "Hello World!");
    assert_eq!(state.code(), DEFAULT_CODE);
}

#[test]
fn set_value_takes_reports_within_the_range() {
    let mut state = TutorialApp::default();
    assert!(state.set_value(bits(0.0)));
    assert_eq!(state.value(), bits(0.0));
    assert!(state.set_value(bits(10.0)));
    assert_eq!(state.value(), bits(10.0));
    assert!(state.set_value(bits(3.14)));
    assert_eq!(state.value(), bits(3.14));
    assert!(state.set_value(bits(-0.0)));
    assert_eq!(state.value(), bits(-0.0));
    assert!(state.set_value(bits(f32::MIN_POSITIVE)));
    assert_eq!(state.value(), bits(f32::MIN_POSITIVE));
}

#[test]
fn set_value_refuses_reports_outside_the_range() {
    let mut state = TutorialApp::default();
    assert!(state.set_value(bits(6.0)));
    for report in [10.000001f32, 11.0, -1.0, -1.0e-30, f32::INFINITY, f32::NEG_INFINITY, f32::NAN] {
        assert!(!state.set_value(bits(report)));
        assert_eq!(state.value(), bits(6.0));
    }
    assert_eq!(state.label(), "Hello World!");
}

#[test]
fn increment_then_decrement_need_not_return_below_the_spacing() {
    let mut state = TutorialApp::default();
    assert!(state.set_value(bits(1.0e-9)));
    state.increment();
    assert_eq!(state.value(), bits(1.0));
    state.decrement();
    assert_eq!(state.value(), bits(0.0));
}

#[test]
fn increment_at_ten_is_a_no_op() {
    let mut state = TutorialApp::default();
    assert_eq!(f32::from_bits(state.value()), 10.0);
    state.increment();
    assert_eq!(state.value(), bits(10.0));
}

#[test]
fn decrement_at_zero_is_a_no_op() {
    let mut state = TutorialApp::default();
    assert!(state.set_value(bits(0.0)));
    state.decrement();
    assert_eq!(state.value(), bits(0.0));
}

#[test]
fn increment_then_decrement_at_five_returns_to_five() {
    let mut state = TutorialApp::default();
    assert!(state.set_value(bits(5.0)));
    state.increment();
    assert_eq!(state.value(), bits(6.0));
    state.decrement();
    assert_eq!(state.value(), bits(5.0));
}

#[test]
fn steps_leave_the_other_fields_alone() {
    let mut state = TutorialApp::default();
    state.set_label(String::from("kept"));
    state.set_code(String::from("kept too"));
    state.decrement();
    state.decrement();
    state.increment();
    assert_eq!(f32::from_bits(state.value()), 9.0);
    assert_eq!(state.label(), "kept");
    assert_eq!(state.language(), "rs");
    assert_eq!(state.code(), "kept too");
}

#[test]
fn steps_clamp_instead_of_leaving_the_range() {
    let mut state = TutorialApp::default();
    assert!(state.set_value(bits(9.5)));
    state.increment();
    assert_eq!(state.value(), bits(10.0));
    assert!(state.set_value(bits(0.5)));
    state.decrement();
    assert_eq!(state.value(), bits(0.0));
}

#[test]
fn steps_ignore_a_loaded_value_outside_the_range() {
    let stored = Stored { label: None, value: Some(bits(42.0)), language: None };
    let mut state = TutorialApp::new(Lookup::Found(stored));
    state.increment();
    assert_eq!(state.value(), bits(42.0));
    state.decrement();
    assert_eq!(state.value(), bits(42.0));
}

#[test]
fn update_applies_each_edit() {
    let mut state = TutorialApp::default();
    state.update(Edit::Label(String::from("typed")));
    assert_eq!(state.label(), "typed");
    state.update(Edit::Slider(bits(2.0)));
    assert_eq!(state.value(), bits(2.0));
    state.update(Edit::Slider(bits(12.0)));
    assert_eq!(state.value(), bits(2.0));
    state.update(Edit::Decrement);
    assert_eq!(state.value(), bits(1.0));
    state.update(Edit::Increment);
    state.update(Edit::Increment);
    assert_eq!(state.value(), bits(3.0));
    state.update(Edit::Language(String::from("sh")));
    assert_eq!(state.language(), "sh");
    state.update(Edit::Code(String::from("echo hi")));
    assert_eq!(state.code(), "echo hi");
    assert_eq!(state.label(), "typed");
}
