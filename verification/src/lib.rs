use vstd::prelude::*;

pub mod analysis;
pub mod cli;
pub mod db;
pub mod models;
pub mod paths;
pub mod player;
pub mod plugins;
pub mod scanner;
pub mod search;
pub mod smart;
pub mod tags;
pub mod text;

verus! {

} // verus!
