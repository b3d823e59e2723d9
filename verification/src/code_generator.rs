//! The pluggable rendering capability and its holder.
//!
//! A strategy turns a completed class model into per-class source text.
//! Alternate target-language backends implement the trait; the scanner
//! and the class model are untouched by the choice.

use vstd::prelude::*;
use crate::model::ClassModel;

verus! {

/// A rendering backend.  Whatever the backend, the output holds exactly
/// one entry per class of the model, under the same name and in the
/// same order, and the model itself is left untouched.
pub trait SourceCodeStrategy {
    fn render(&self, classes: &ClassModel) -> (out: Vec<(String, String)>)
        ensures
            out@.len() == classes@.len(),
            forall|i: int|
                0 <= i < classes@.len() ==> (#[trigger] out@[i]).0@ == classes@[i].name,
    ;
}

/// Renders a class model through the chosen strategy.
pub struct SourceCodeGenerator<S: SourceCodeStrategy> {
    source_code_strategy: S,
}

impl<S: SourceCodeStrategy> SourceCodeGenerator<S> {
    pub fn new(source_code_strategy: S) -> (r: Self) {
        SourceCodeGenerator { source_code_strategy }
    }

    /// The rendered sources: one entry per class, keyed by class name.
    pub fn generate_source_code(&self, classes: &ClassModel) -> (out: Vec<(String, String)>)
        ensures
            out@.len() == classes@.len(),
            forall|i: int|
                0 <= i < classes@.len() ==> (#[trigger] out@[i]).0@ == classes@[i].name,
    {
        self.source_code_strategy.render(classes)
    }
}

} // verus!
