//! Change events describing how the translation store moved.
use vstd::prelude::*;

verus! {

/// The kind of change that produced a [`LangChangeEvent`].
#[derive(Clone, Copy, Debug, PartialEq, Eq, Hash, Structural)]
pub enum ChangeKind {
    /// A locale was loaded for the first time.
    Loaded,
    /// A locale was reloaded (replaced) with fresh contents.
    Reloaded,
    /// A locale was removed from the lookup table.
    Unloaded,
    /// A watched file changed but was missing or unreadable on reload.
    FileMissing,
    /// A watched file changed but no longer parses as TOML.
    ParseFailed,
}

/// A change to the translation store: the affected locale and what happened.
#[derive(Clone, Debug, PartialEq, Eq, Hash)]
pub struct LangChangeEvent {
    /// The locale identifier the change applies to.
    pub locale: String,
    /// The kind of change.
    pub kind: ChangeKind,
}

impl View for LangChangeEvent {
    type V = (Seq<char>, ChangeKind);

    open spec fn view(&self) -> (Seq<char>, ChangeKind) {
        (self.locale@, self.kind)
    }
}

} // verus!
