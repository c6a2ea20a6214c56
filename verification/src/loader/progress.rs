//! Loading progress utilities.

use std::borrow::Cow;
use vstd::prelude::*;

verus! {

/// A reporter that does nothing.
#[derive(Debug)]
pub struct NoopReporter;

/// A reporter that emits trace-level events for progress reporting.
#[derive(Debug)]
pub struct TracingReporter {
    /// The name of the progress reporter.
    pub name: Cow<'static, str>,
}

impl TracingReporter {
    /// Create a new [`TracingReporter`] with a static str name.
    pub fn from_static(name: &'static str) -> (r: Self)
        ensures
            r.name@ == name@,
    {
        Self { name: Cow::Borrowed(name) }
    }
}

} // verus!
