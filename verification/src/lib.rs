use vstd::prelude::*;

pub mod text;
pub mod normalize;
pub mod model;
pub mod vue;
pub mod language;
pub mod syntax;
pub mod facts;
pub mod analysis;
pub mod report;
pub mod markdown;

verus! {
} // verus!
