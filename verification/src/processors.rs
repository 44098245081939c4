//! The downstream processor interface: any component may be given the
//! produced event sequence and must return a sequence of the same element
//! type, enabling a composable post-processing chain.

use vstd::prelude::*;

use crate::events::AnnotatedEvent;

verus! {

/// Common trait for all stream processors.
pub trait Processor {
    /// Applies the processor to an event stream, consuming the processor.
    fn apply(self, events: Vec<AnnotatedEvent>) -> Vec<AnnotatedEvent>;

    /// Applies the processor to an event stream by reference.
    fn apply_ref(&self, events: Vec<AnnotatedEvent>) -> Vec<AnnotatedEvent>;
}

} // verus!
