//! Hot-reload metadata for function signature stability.

use vstd::prelude::*;
use crate::types::{models_of, types_equal, CoreType};

verus! {

/// Metadata recorded for each function to support signature change detection.
#[derive(Debug)]
pub struct FunctionHotReloadMetadata {
    /// Function symbol name.
    pub name: String,
    /// Parameter type signature captured at the latest check.
    pub parameter_types: Vec<CoreType>,
    /// Return type signature captured at the latest check.
    pub return_types: Vec<CoreType>,
    /// Whether the latest signature matches the previously recorded signature.
    pub signature_stable: bool,
}

impl FunctionHotReloadMetadata {
    /// Construct metadata; the signature is stable when there is no previous snapshot or
    /// the previous one has the same parameter and return types.
    pub fn from_previous(
        name: String,
        parameter_types: Vec<CoreType>,
        return_types: Vec<CoreType>,
        previous: Option<&Self>,
    ) -> (r: Self)
        ensures
            r.name == name,
            r.parameter_types == parameter_types,
            r.return_types == return_types,
            r.signature_stable == (match previous {
                None => true,
                Some(p) => models_of(p.parameter_types@) == models_of(parameter_types@)
                    && models_of(p.return_types@) == models_of(return_types@),
            }),
    {
        let signature_stable = match previous {
            None => true,
            Some(existing) => types_equal(&existing.parameter_types, &parameter_types)
                && types_equal(&existing.return_types, &return_types),
        };
        FunctionHotReloadMetadata { name, parameter_types, return_types, signature_stable }
    }
}

} // verus!
