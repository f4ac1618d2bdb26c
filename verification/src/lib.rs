use vstd::prelude::*;

pub mod enumeration;
pub mod text;
pub mod watcher;
pub mod reconciliation;
pub mod reconciliation_laws;
pub mod scan;
pub mod sidecar;

verus! {
} // verus!
