//! Laws of the operations as a whole: what the results of a call have to do with
//! its inputs, whatever way the call takes to them.

pub mod admitting;
pub mod archiving;
pub mod consolidating;
pub mod deciding;
pub mod dreaming;
pub mod filing;
pub mod graph;
pub mod joining;
pub mod keeping;
pub mod ordering;
pub mod packing;
pub mod pooling;
pub mod remembering;
pub mod resembling;
pub mod searching;
pub mod selecting;
pub mod storing;
pub mod turns;
pub mod walking;
pub mod wording;
