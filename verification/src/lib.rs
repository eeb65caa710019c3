//! The persisted state of a small desktop window: a text label, a bounded
//! numeric value, a language tag and a code buffer, together with the rules
//! by which the state is loaded, edited and saved.

pub mod binary32;
pub mod steps;
pub mod record;
pub mod state;
pub mod session;
pub mod laws;

pub use crate::record::{Lookup, Persisted, Stored};
pub use crate::session::Session;
pub use crate::state::{Edit, TutorialApp};
