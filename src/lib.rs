//! Layout and drawing of a labelled tree ("lattice") as boxed text nodes joined by curved links.
use vstd::prelude::*;

pub mod rect;
pub mod canvas;
pub mod lattice;
pub mod draw;

verus! {

} // verus!
