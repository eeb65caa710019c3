//! The state record of the window and the edits that the controls make.

use crate::binary32::{in_range, is_in_range, TEN_BITS};
use crate::record::{Lookup, LookupView, Persisted, PersistedView, Stored, StoredView};
use crate::steps::{step_down, step_up, steps_down, steps_up};
use vstd::prelude::*;

verus! {

/// The label of a fresh state.
pub const DEFAULT_LABEL: &'static str = "Hello World!";

/// The language tag of a fresh state.
pub const DEFAULT_LANGUAGE: &'static str = "rs";

/// The code buffer of a fresh state, and of every state just loaded.
pub const DEFAULT_CODE: &'static str = "\nfn main() {\n\tprintln!(\"Hello rust!\");\n}\n";

/// The state of the window: a label, a value, a language tag and a code
/// buffer. The value is held as the encoding of a binary32 number.
#[derive(Clone, Debug, PartialEq, Eq)]
pub struct TutorialApp {
    label: String,
    value: u32,
    language: String,
    code: String,
}

/// The mathematical content of a [`TutorialApp`].
pub struct StateView {
    pub label: Seq<char>,
    pub value: u32,
    pub language: Seq<char>,
    pub code: Seq<char>,
}

impl View for TutorialApp {
    type V = StateView;

    closed spec fn view(&self) -> StateView {
        StateView {
            label: self.label@,
            value: self.value,
            language: self.language@,
            code: self.code@,
        }
    }
}

/// The state that exists before anything was stored: the default label,
/// the value 10.0, the default language tag and the default code.
pub open spec fn default_state() -> StateView {
    StateView {
        label: DEFAULT_LABEL@,
        value: TEN_BITS,
        language: DEFAULT_LANGUAGE@,
        code: DEFAULT_CODE@,
    }
}

/// One thing that the controls of the window report in a frame.
#[derive(Clone, Debug, PartialEq, Eq)]
pub enum Edit {
    /// The text input holds this text.
    Label(String),
    /// The slider reports this value, as the encoding of a binary32
    /// number.
    Slider(u32),
    /// The button that lowers the value was pressed.
    Decrement,
    /// The button that raises the value was pressed.
    Increment,
    /// The language tag was set to this text.
    Language(String),
    /// The editor holds this text.
    Code(String),
}

/// Whether `after` is what the edit makes of `before`.
pub open spec fn edits(before: StateView, edit: Edit, after: StateView) -> bool {
    match edit {
        Edit::Label(label) => after == (StateView { label: label@, ..before }),
        Edit::Slider(bits) => after == (StateView {
            value: if in_range(bits) {
                bits
            } else {
                before.value
            },
            ..before
        }),
        Edit::Decrement => after == (StateView { value: after.value, ..before }) && steps_down(
            before.value,
            after.value,
        ),
        Edit::Increment => after == (StateView { value: after.value, ..before }) && steps_up(
            before.value,
            after.value,
        ),
        Edit::Language(language) => after == (StateView { language: language@, ..before }),
        Edit::Code(code) => after == (StateView { code: code@, ..before }),
    }
}

/// A stored record laid over the default state: a field that is there is
/// taken, a missing field keeps its default, and the code is the default
/// code.
pub open spec fn merged(stored: StoredView) -> StateView {
    StateView {
        label: match stored.label {
            Some(label) => label,
            None => default_state().label,
        },
        value: match stored.value {
            Some(value) => value,
            None => default_state().value,
        },
        language: match stored.language {
            Some(language) => language,
            None => default_state().language,
        },
        code: default_state().code,
    }
}

/// The state that a run starts with: the stored record laid over the
/// default state where one was found, the default state in every other
/// case.
pub open spec fn loaded(lookup: LookupView) -> StateView {
    match lookup {
        LookupView::Found(stored) => merged(stored),
        _ => default_state(),
    }
}

/// The part of a state that is written: every field but the code.
pub open spec fn projection(state: StateView) -> PersistedView {
    PersistedView { label: state.label, value: state.value, language: state.language }
}

impl Default for TutorialApp {
    fn default() -> (state: Self)
        ensures
            state@ == default_state(),
    {
        TutorialApp {
            label: DEFAULT_LABEL.to_owned(),
            value: TEN_BITS,
            language: DEFAULT_LANGUAGE.to_owned(),
            code: DEFAULT_CODE.to_owned(),
        }
    }
}

impl TutorialApp {
    /// The state at the start of a run, from what looking for the stored
    /// record came to. A record that was found is laid over the default
    /// state; without a store, without a record, or with one that cannot be
    /// read, the state is the default state. The code is never taken from
    /// the store.
    pub fn new(lookup: Lookup) -> (state: Self)
        ensures
            state@ == loaded(lookup@),
    {
        let mut state = TutorialApp::default();
        match lookup {
            Lookup::Found(stored) => {
                state.merge(stored);
            },
            _ => {},
        }
        state
    }

    /// Lays a stored record over this state, field by field. The code is
    /// left alone.
    fn merge(&mut self, stored: Stored)
        ensures
            final(self)@ == (StateView {
                label: match stored@.label {
                    Some(label) => label,
                    None => old(self)@.label,
                },
                value: match stored@.value {
                    Some(value) => value,
                    None => old(self)@.value,
                },
                language: match stored@.language {
                    Some(language) => language,
                    None => old(self)@.language,
                },
                code: old(self)@.code,
            }),
    {
        if let Some(label) = stored.label {
            self.label = label;
        }
        if let Some(value) = stored.value {
            self.value = value;
        }
        if let Some(language) = stored.language {
            self.language = language;
        }
    }

    /// The record to write for this state: the label, the value and the
    /// language tag. The code is left out.
    pub fn save(&self) -> (record: Persisted)
        ensures
            record@ == projection(self@),
    {
        Persisted {
            label: self.label.clone(),
            value: self.value,
            language: self.language.clone(),
        }
    }

    /// Applies one edit that the controls report. The label, the language
    /// tag and the code are replaced by the text given; a slider report
    /// from 0.0 to 10.0 replaces the value and any other is ignored; the
    /// buttons move the value by 1.0 within the range.
    pub fn update(&mut self, edit: Edit)
        ensures
            edits(old(self)@, edit, final(self)@),
            in_range(old(self)@.value) ==> in_range(final(self)@.value),
    {
        match edit {
            Edit::Label(label) => self.set_label(label),
            Edit::Slider(bits) => {
                self.set_value(bits);
            },
            Edit::Decrement => self.decrement(),
            Edit::Increment => self.increment(),
            Edit::Language(language) => self.set_language(language),
            Edit::Code(code) => self.set_code(code),
        }
    }

    /// The label.
    pub fn label(&self) -> (label: &str)
        ensures
            label@ == self@.label,
    {
        self.label.as_str()
    }

    /// The value, as the encoding of a binary32 number.
    pub fn value(&self) -> (bits: u32)
        ensures
            bits == self@.value,
    {
        self.value
    }

    /// The language tag.
    pub fn language(&self) -> (language: &str)
        ensures
            language@ == self@.language,
    {
        self.language.as_str()
    }

    /// The code buffer.
    pub fn code(&self) -> (code: &str)
        ensures
            code@ == self@.code,
    {
        self.code.as_str()
    }

    /// Replaces the label with the contents of the text input.
    pub fn set_label(&mut self, label: String)
        ensures
            final(self)@ == (StateView { label: label@, ..old(self)@ }),
    {
        self.label = label;
    }

    /// Takes the value that the slider reports. A report from 0.0 to 10.0
    /// replaces the value; any other report is refused and changes nothing.
    pub fn set_value(&mut self, bits: u32) -> (accepted: bool)
        ensures
            accepted == in_range(bits),
            accepted ==> final(self)@ == (StateView { value: bits, ..old(self)@ }),
            !accepted ==> final(self)@ == old(self)@,
    {
        if is_in_range(bits) {
            self.value = bits;
            true
        } else {
            false
        }
    }

    /// Raises the value by 1.0, stopping at 10.0.
    pub fn increment(&mut self)
        ensures
            steps_up(old(self)@.value, final(self)@.value),
            final(self)@ == (StateView { value: final(self)@.value, ..old(self)@ }),
            in_range(old(self)@.value) ==> in_range(final(self)@.value),
    {
        self.value = step_up(self.value);
    }

    /// Lowers the value by 1.0, stopping at 0.0.
    pub fn decrement(&mut self)
        ensures
            steps_down(old(self)@.value, final(self)@.value),
            final(self)@ == (StateView { value: final(self)@.value, ..old(self)@ }),
            in_range(old(self)@.value) ==> in_range(final(self)@.value),
    {
        self.value = step_down(self.value);
    }

    /// Replaces the language tag. Any text is taken.
    pub fn set_language(&mut self, language: String)
        ensures
            final(self)@ == (StateView { language: language@, ..old(self)@ }),
    {
        self.language = language;
    }

    /// Replaces the code buffer with the contents of the editor.
    pub fn set_code(&mut self, code: String)
        ensures
            final(self)@ == (StateView { code: code@, ..old(self)@ }),
    {
        self.code = code;
    }
}

} // verus!
