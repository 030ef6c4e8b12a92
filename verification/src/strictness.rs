//! How an evaluator treats what the language leaves open.

use vstd::prelude::*;

verus! {

/// The choices that an evaluator is made with.
///
/// With every choice off, evaluation is lenient: whatever cannot be
/// evaluated is the empty value and nothing is recorded of it, and a call
/// that is refused for one of its arguments leaves the scope of the callee
/// active.
#[derive(Clone, Copy, Debug, PartialEq, Eq, Structural)]
pub struct Strictness {
    /// Record an error wherever evaluation gives up and falls back to the
    /// empty value: at a name that is bound to no value, a callee that is no
    /// function, a member access that does not resolve, operands that do not
    /// combine, and a division by zero.
    pub report_failures: bool,
    /// Take the scope of the callee off the stack again when a call is
    /// refused for one of its arguments.
    pub release_refused_calls: bool,
}

impl Strictness {
    /// Every choice off.
    pub fn lenient() -> (r: Strictness)
        ensures
            r == (Strictness { report_failures: false, release_refused_calls: false }),
    {
        Strictness { report_failures: false, release_refused_calls: false }
    }

    /// Every choice on.
    pub fn strict() -> (r: Strictness)
        ensures
            r == (Strictness { report_failures: true, release_refused_calls: true }),
    {
        Strictness { report_failures: true, release_refused_calls: true }
    }
}

impl Default for Strictness {
    fn default() -> (r: Strictness)
        ensures
            r == (Strictness { report_failures: false, release_refused_calls: false }),
    {
        Strictness::lenient()
    }
}

} // verus!
