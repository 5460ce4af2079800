//! Error types associated with the analyzer.

use crate::accessors::AccessorError;
use crate::engines::cosine_similarity::Error;
use vstd::prelude::*;

verus! {

/// An error that might occur while an Analyzer is running.
#[derive(Debug)]
pub enum AnalyzerError {
    /// An error returned by an accessor.
    Accessor(AccessorError),
    /// An error returned by an engine.
    Engine(Error),
}

impl From<AccessorError> for AnalyzerError {
    fn from(err: AccessorError) -> (e: AnalyzerError) {
        AnalyzerError::Accessor(err)
    }
}

impl vstd::std_specs::convert::FromSpecImpl<AccessorError> for AnalyzerError {
    open spec fn obeys_from_spec() -> bool {
        true
    }

    open spec fn from_spec(err: AccessorError) -> AnalyzerError {
        AnalyzerError::Accessor(err)
    }
}

impl From<Error> for AnalyzerError {
    fn from(err: Error) -> (e: AnalyzerError) {
        AnalyzerError::Engine(err)
    }
}

impl vstd::std_specs::convert::FromSpecImpl<Error> for AnalyzerError {
    open spec fn obeys_from_spec() -> bool {
        true
    }

    open spec fn from_spec(err: Error) -> AnalyzerError {
        AnalyzerError::Engine(err)
    }
}

} // verus!
