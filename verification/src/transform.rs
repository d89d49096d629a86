//! The types a whole-file transform exchanges with its host: configuration
//! in, printed code and dependency metadata out.

use crate::module_resolver::ModuleResolverVisit;
use vstd::prelude::*;

verus! {

/// Caller-supplied configuration for one transform invocation.
#[derive(Debug, Clone)]
pub struct TransformerCustomOptions {
    pub external_packages: Vec<String>,
}

impl Default for TransformerCustomOptions {
    /// By default no external packages are configured.
    fn default() -> (r: TransformerCustomOptions)
        ensures
            r.external_packages@ == Seq::<String>::empty(),
    {
        TransformerCustomOptions { external_packages: Vec::new() }
    }
}

/// The metadata emitted beside a transformed file: the resolved dependency
/// paths, as a list whose order carries no meaning.
#[derive(Debug)]
pub struct Metadata {
    pub requires: Vec<String>,
}

/// The output of one file's transform.
#[derive(Debug)]
pub struct TransformOutput {
    pub code: String,
    pub map: Option<String>,
    pub metadata: Metadata,
}

/// The metadata a finished traversal yields: its collected dependency set.
pub fn metadata_from_visit(visit: ModuleResolverVisit) -> (r: Metadata)
    ensures
        r.requires == visit.requires,
{
    Metadata { requires: visit.requires }
}

} // verus!
