use vstd::prelude::*;

pub mod game;
pub mod persian;
pub mod json;
pub mod text;
mod sql;
pub mod db;
pub mod ui;

verus! {

} // verus!
