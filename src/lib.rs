use vstd::prelude::*;

pub mod classify;
pub mod dom;
pub mod extract;
pub mod lemmas;
pub mod models;
pub mod resolve;
pub mod scan;
pub mod text;

verus! {

} // verus!
