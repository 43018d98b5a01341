use vstd::prelude::*;

verus! {

/// The errors that can arise when loading user interface styles.
#[derive(Debug, Clone, PartialEq, Eq)]
pub enum UiStylesError {
    /// Reading a style resource failed; holds the message of the underlying error.
    IoError(String),
    /// The font collection could not be converted to a single font.
    FontError,
}

} // verus!
