//! User and group identifiers, as `rustix` represents them.

use rustix::process::{Gid, Uid};
use vstd::prelude::*;

verus! {

/// `rustix::process::Gid`, a group id. What it holds is seen through
/// `gid_raw` alone.
#[verifier::external_type_specification]
#[verifier::external_body]
pub struct ExGid(Gid);

/// `rustix::process::Uid`, a user id. What it holds is seen through
/// `uid_raw` alone.
#[verifier::external_type_specification]
#[verifier::external_body]
pub struct ExUid(Uid);

/// The raw number that a `Gid` holds: the one it was made from.
pub uninterp spec fn gid_raw(gid: Gid) -> u32;

/// The raw number that a `Uid` holds: the one it was made from, and the one
/// that `Uid::as_raw` hands back.
pub uninterp spec fn uid_raw(uid: Uid) -> u32;

/// `Gid::from_raw_unchecked` stores the number it is given, whatever it is.
pub assume_specification[ Gid::from_raw_unchecked ](raw: u32) -> (gid: Gid)
    ensures
        gid_raw(gid) == raw,
;

/// `Uid::from_raw_unchecked` stores the number it is given, whatever it is.
pub assume_specification[ Uid::from_raw_unchecked ](raw: u32) -> (uid: Uid)
    ensures
        uid_raw(uid) == raw,
;

/// `Uid::as_raw` hands back the number that the identifier holds.
pub assume_specification[ Uid::as_raw ](uid: Uid) -> (raw: u32)
    ensures
        raw == uid_raw(uid),
;

} // verus!
