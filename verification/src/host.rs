//! The few values the host system supplies: the home directory and the
//! current local time as used in backup names.  Each depends on the
//! environment or the clock, so nothing is promised about the values
//! themselves.

use vstd::prelude::*;

verus! {

/// Relies on `dirs::home_dir`: the user's home directory, when the
/// system knows one.  The value depends on the environment.
#[verifier::external_body]
pub(crate) fn home_dir_string() -> (r: Option<String>)
{
    dirs::home_dir().map(|p| p.to_string_lossy().to_string())
}

/// Relies on `chrono::Local::now` and its formatter: the current local
/// time in the compact form used in backup file names.  The value
/// depends on the clock and the time zone.
#[verifier::external_body]
pub(crate) fn timestamp_compact() -> (r: String)
{
    chrono::Local::now().format("%Y%m%d_%H%M%S").to_string()
}

} // verus!
