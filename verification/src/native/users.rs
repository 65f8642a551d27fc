//! Users, groups and home directories.

use vstd::prelude::*;
use vstd::utf8::{decode_utf8, valid_utf8};

use super::error::{Errno, Error};
use super::{before_nul, copy_string};

verus! {

/// The number of a user.
pub type UserId = u32;

/// The number of a group.
pub type GroupId = u32;

/// What the user database holds for a user.
#[derive(Debug, Clone, PartialEq, Eq)]
pub enum Entry {
    /// No record; the error says why.
    Missing(Errno),
    /// A record without a home directory.
    Homeless,
    /// A record with this home directory, as a C string.
    Home(Vec<u8>),
}

/// The home directory of a user, from the user's record in the user
/// database.
pub fn get_home_dir(entry: Entry) -> (home: Result<String, Error>)
    ensures
        match entry {
            Entry::Missing(errno) => home == Err::<String, Error>(Error::Errno(errno)),
            Entry::Homeless => home == Err::<String, Error>(Error::NotFound),
            Entry::Home(bytes) => match home {
                Ok(s) => valid_utf8(before_nul(bytes@)) && s@ == decode_utf8(before_nul(bytes@)),
                Err(e) => !valid_utf8(before_nul(bytes@)) && e == Error::InvalidUnicode,
            },
        },
{
    match entry {
        Entry::Missing(errno) => Err(Error::Errno(errno)),
        Entry::Homeless => Err(Error::NotFound),
        Entry::Home(bytes) => copy_string(&bytes),
    }
}

} // verus!
