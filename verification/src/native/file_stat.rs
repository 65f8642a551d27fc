//! What `stat` tells about a file.

use vstd::prelude::*;

use super::users::{GroupId, UserId};

verus! {

/// The permission bits of a file.
pub type FileMode = u32;

/// The owner, the group and the permission bits of a file.
#[derive(Debug, Clone, Copy, PartialEq, Eq, Structural)]
pub struct FileStat {
    pub uid: UserId,
    pub gid: GroupId,
    pub mode: FileMode,
}

} // verus!
