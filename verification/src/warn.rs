//! Soft-invariant reporting: a violated data invariant is reported on the
//! error stream but never blocks construction, so audits proceed best-effort
//! over imperfect upstream data.

use std::io::Write;
use vstd::prelude::*;

verus! {

/// Relies on `std::io::stderr`: writes one warning line to the error stream.
#[verifier::external_body]
pub(crate) fn warn_invariant(kind: &str, text: &str) {
    let _ = writeln!(std::io::stderr(), "failed invariant! on {} {}", kind, text);
}

} // verus!
