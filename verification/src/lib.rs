use vstd::prelude::*;

pub mod text;
pub mod diagnostic;
pub mod external;
pub mod check;
pub mod domain;
pub mod requests;
pub mod manifest;
pub mod ports;
pub mod graph;
pub mod policy;
pub mod cli;
pub mod runner;
pub mod affected;
pub mod tasks;
pub mod render;
pub mod discovery;
pub mod adapters;
pub mod adoption;
pub mod facade;
pub mod inspect;
pub mod workflow;
pub mod pr;
pub mod adoption_plan;
pub mod code_size;
pub mod ops;
pub mod journal;
pub mod provider;
pub mod laws;

verus! {
} // verus!
