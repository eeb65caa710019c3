//! What is kept between runs: the record that a save writes, the record
//! that a load may find, and the outcome of looking for it.
//!
//! The code buffer is not kept. A record that is found may lack any of its
//! fields: an older program wrote fewer of them.

use vstd::prelude::*;

verus! {

/// The part of the state that a save writes: every field but the code.
#[derive(Clone, Debug, PartialEq, Eq)]
pub struct Persisted {
    pub label: String,
    pub value: u32,
    pub language: String,
}

/// The mathematical content of a [`Persisted`].
pub struct PersistedView {
    pub label: Seq<char>,
    pub value: u32,
    pub language: Seq<char>,
}

impl View for Persisted {
    type V = PersistedView;

    open spec fn view(&self) -> PersistedView {
        PersistedView { label: self.label@, value: self.value, language: self.language@ }
    }
}

/// A record as it was read back: each field is there or is missing.
#[derive(Clone, Debug, PartialEq, Eq)]
pub struct Stored {
    pub label: Option<String>,
    pub value: Option<u32>,
    pub language: Option<String>,
}

/// The mathematical content of a [`Stored`].
pub struct StoredView {
    pub label: Option<Seq<char>>,
    pub value: Option<u32>,
    pub language: Option<Seq<char>>,
}

/// The characters of a text that may be missing.
pub open spec fn text_of(text: Option<String>) -> Option<Seq<char>> {
    match text {
        Some(t) => Some(t@),
        None => None,
    }
}

impl View for Stored {
    type V = StoredView;

    open spec fn view(&self) -> StoredView {
        StoredView {
            label: text_of(self.label),
            value: self.value,
            language: text_of(self.language),
        }
    }
}

/// What looking for the stored record came to.
#[derive(Clone, Debug, PartialEq, Eq)]
pub enum Lookup {
    /// No store is configured.
    NoStorage,
    /// The store holds nothing under the key.
    Missing,
    /// The store holds something that cannot be read as a record.
    Corrupt,
    /// The store holds a record.
    Found(Stored),
}

/// The mathematical content of a [`Lookup`].
pub enum LookupView {
    NoStorage,
    Missing,
    Corrupt,
    Found(StoredView),
}

impl View for Lookup {
    type V = LookupView;

    open spec fn view(&self) -> LookupView {
        match *self {
            Lookup::NoStorage => LookupView::NoStorage,
            Lookup::Missing => LookupView::Missing,
            Lookup::Corrupt => LookupView::Corrupt,
            Lookup::Found(stored) => LookupView::Found(stored@),
        }
    }
}

/// A written record as it reads back when nothing was lost: every field is
/// there.
pub open spec fn complete(record: PersistedView) -> StoredView {
    StoredView {
        label: Some(record.label),
        value: Some(record.value),
        language: Some(record.language),
    }
}

impl Persisted {
    /// The record as a load finds it after this one was written.
    pub fn into_stored(self) -> (stored: Stored)
        ensures
            stored@ == complete(self@),
    {
        Stored { label: Some(self.label), value: Some(self.value), language: Some(self.language) }
    }
}

} // verus!
