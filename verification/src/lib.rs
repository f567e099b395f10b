use vstd::prelude::*;

pub mod assets;
pub mod cell;
pub mod cli;
pub mod commands;
pub mod defs;
pub mod fixtures;
pub mod interaction;
pub mod lexical;
pub mod linking;
pub mod path;
pub mod pawn;
pub mod renderer;
pub mod text;

verus! {

} // verus!
