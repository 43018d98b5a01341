use vstd::prelude::*;
use crate::engine::common::file_manipulation::FileError;

verus! {

/// The errors that can arise when loading user interface styles.
#[derive(Debug, Clone, PartialEq, Eq)]
pub enum UiStylesError {
    /// A style resource file could not be accessed or read.
    FileError(FileError),
    /// The font collection could not be converted to a single font.
    FontError,
}

} // verus!
