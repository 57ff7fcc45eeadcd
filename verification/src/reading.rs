//! What reading a file hands to this library.
//!
//! The library opens no file itself: a caller reads the file and hands over
//! what the read gave, the contents or the error.

use std::io::Error;
use vstd::prelude::*;

verus! {

/// `std::io::Error`, the error of a failed read. Nothing is claimed of what
/// it holds: the library hands it back or drops it.
#[verifier::external_type_specification]
#[verifier::external_body]
pub struct ExIoError(Error);

/// Where the group database is kept.
pub const GROUP_PATH: &'static str = "/etc/group";

/// Where the user database is kept.
pub const PASSWD_PATH: &'static str = "/etc/passwd";

/// Where the processor table is kept.
pub const CPUINFO_PATH: &'static str = "/proc/cpuinfo";

/// Where the memory table is kept.
pub const MEMINFO_PATH: &'static str = "/proc/meminfo";

/// Where the release description is kept.
pub const OS_RELEASE_PATH: &'static str = "/etc/os-release";

} // verus!
