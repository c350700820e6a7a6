//! The classification step of the configuration loader.
//!
//! Loading a configuration runs a fixed, short-circuiting sequence of
//! checks: does the path name a filesystem entry at all; is that entry a
//! regular file; could the file be opened and fully read; do its contents
//! parse. The order is load-bearing — it decides which error a caller
//! sees when several conditions hold at once — and it is fixed here, in
//! verified code: the caller performs the raw filesystem probes and hands
//! their outcomes in, and this module turns them into the classified
//! error, or into nothing when the path may be read.

use vstd::prelude::*;
use crate::errors::ConfigError;
use crate::errors::not_found_msg;
use crate::errors::not_a_file_msg;

verus! {

/// Classifies the two path checks that precede reading the file, in
/// their fixed order: a path without a filesystem entry is `NotFound`,
/// whatever else holds of it; an entry that is not a regular file is
/// `NotAFile`; a path that passes both checks yields no error and may be
/// read.
pub fn classify_path(path: &str, path_exists: bool, is_regular_file: bool) -> (r: Option<
    ConfigError,
>)
    ensures
        !path_exists ==> (r matches Some(ConfigError::NotFound(m)) && m@ == not_found_msg(path@)),
        path_exists && !is_regular_file ==> (r matches Some(ConfigError::NotAFile(m)) && m@
            == not_a_file_msg(path@)),
        path_exists && is_regular_file ==> r is None,
{
    if !path_exists {
        Some(ConfigError::not_found(path))
    } else if !is_regular_file {
        Some(ConfigError::not_a_file(path))
    } else {
        None
    }
}

} // verus!
