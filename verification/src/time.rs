//! The current local time, rendered for document headers and output file
//! names. Nothing is assumed of the results: they depend on the clock.

use vstd::prelude::*;

verus! {

/// Relies on chrono's Local::now and DateTime::format to render the
/// current local time as `MM-DD-YYYY at HH:MM:SS`.
#[verifier::external_body]
pub fn timestamp_now() -> String {
    let now = chrono::Local::now();
    format!("{} at {}", now.format("%m-%d-%Y"), now.format("%H:%M:%S"))
}

/// Relies on chrono's Local::now and DateTime::format to render the
/// current local date as `MM-DD-YY`, for output file names.
#[verifier::external_body]
pub fn datestamp_now() -> String {
    let now = chrono::Local::now();
    format!("{}", now.format("%m-%d-%y"))
}

} // verus!
