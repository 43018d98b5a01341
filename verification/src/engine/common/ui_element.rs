use vstd::prelude::*;
use crate::engine::common::text_rendering::TextRenderError;
use crate::engine::common::ui_primitive::UiPrimitiveError;

verus! {

/// The errors that can arise when building a user interface element.
#[derive(Debug, Clone, PartialEq, Eq)]
pub enum UiElementError {
    /// The text of the element could not be rendered.
    TextRenderError(TextRenderError),
    /// A primitive of the element could not be built.
    UiPrimitiveError(UiPrimitiveError),
}

} // verus!
