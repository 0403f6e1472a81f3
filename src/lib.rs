use vstd::prelude::*;

pub mod fields;
pub mod holder;
pub mod optimizers;
pub mod optimizers_builder;
pub mod ids;
pub mod payload;
pub mod proxy;
pub mod segment;
pub mod settings;

verus! {

} // verus!
