//! The browsing logic of a file manager for TI-Nspire calculators: what each
//! key, mouse event and device event does to the browser's state, proved
//! against its contracts.
use vstd::prelude::*;

pub mod app;
pub mod config;
pub mod device;
pub mod files;
pub mod input;
pub mod laws;
pub mod paths;
pub mod text;
pub mod view;

verus! {

} // verus!
