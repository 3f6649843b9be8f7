//! The output sink: rendered text is handed to the standard output under one
//! short-lived lock per flush.

use vstd::prelude::*;

verus! {

#[verifier::external_type_specification]
#[verifier::external_body]
pub struct ExIoError(std::io::Error);

/// Relies on std::io::Write::write_all on the locked standard output.  The
/// whole text is handed over under one lock; whether the sink accepts it is
/// the sink's decision alone, so nothing is promised of the result.
#[verifier::external_body]
pub(crate) fn write_stdout(s: &str) -> (r: Result<(), std::io::Error>) {
    let out = std::io::stdout();
    let mut lock = out.lock();
    std::io::Write::write_all(&mut lock, s.as_bytes())
}

} // verus!
