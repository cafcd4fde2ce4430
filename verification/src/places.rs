//! The user's standard directories, as the `dirs` crate finds them.

use vstd::prelude::*;

verus! {

/// `dirs::home_dir`: the user's home directory, when it can be found. It
/// depends on the environment, so nothing is stated of it.
#[verifier::external_body]
pub(crate) fn home_dir() -> Option<String> {
    dirs::home_dir().map(|p| p.to_string_lossy().into_owned())
}

/// `dirs::config_dir`: the user's configuration directory, when it can be
/// found. It depends on the environment, so nothing is stated of it.
#[verifier::external_body]
pub(crate) fn config_dir() -> Option<String> {
    dirs::config_dir().map(|p| p.to_string_lossy().into_owned())
}

/// `dirs::data_dir`: the user's data directory, when it can be found. It
/// depends on the environment, so nothing is stated of it.
#[verifier::external_body]
pub(crate) fn data_dir() -> Option<String> {
    dirs::data_dir().map(|p| p.to_string_lossy().into_owned())
}

} // verus!
