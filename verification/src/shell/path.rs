//! The command resolver: from the name of a command to the path of a
//! program.
//!
//! A name with a `/` in it is a path already, and is taken as it stands where
//! it starts at the root, or else from the working directory. Any other name
//! is looked for in the directories of the search path, in their order.

use vstd::prelude::*;
use vstd::string::{StrSliceExecFns, StringExecFns};

use crate::native::error::Error;
use crate::shell::Shell;
use crate::text::{chars_of, find_from, lemma_first_index};

verus! {

/// The path of `name` seen from `directory`: `name` itself where it starts at
/// the root, and otherwise `directory`, a `/` unless `directory` is empty or
/// ends with one, and `name`.
pub open spec fn join_path(directory: Seq<char>, name: Seq<char>) -> Seq<char> {
    if name.len() > 0 && name[0] == '/' {
        name
    } else if directory.len() == 0 || directory.last() == '/' {
        directory + name
    } else {
        directory + seq!['/'] + name
    }
}

/// The system-wide login script is its own path, whatever the home directory
/// is.
pub proof fn lemma_system_login_path(home: Seq<char>)
    ensures
        join_path(home, crate::shell::system_login()) == crate::shell::system_login(),
{
    reveal_strlit("/etc/.login");
}

/// Puts a directory and a name together into one path.
pub fn joined(directory: &str, name: &str) -> (path: String)
    ensures
        path@ == join_path(directory@, name@),
{
    if !name.is_empty() && name.get_char(0) == '/' {
        return name.to_string();
    }
    let length = directory.unicode_len();
    if length == 0 || directory.get_char(length - 1) == '/' {
        directory.to_string().concat(name)
    } else {
        proof {
            reveal_strlit("/");
        }
        directory.to_string().concat("/").concat(name)
    }
}

/// What has to be asked of the file system to find a command.
#[derive(Debug, Clone, PartialEq, Eq)]
pub enum Lookup {
    /// Nothing: this is the path of the program.
    Absolute(String),
    /// The canonical form of this path, which is the path of the program if
    /// it has one.
    Relative(String),
    /// What each directory of the search path holds.
    Search,
}

/// What a [`Lookup`] stands for in contracts.
pub enum LookupModel {
    Absolute(Seq<char>),
    Relative(Seq<char>),
    Search,
}

impl DeepView for Lookup {
    type V = LookupModel;

    open spec fn deep_view(&self) -> LookupModel {
        match self {
            Lookup::Absolute(path) => LookupModel::Absolute(path@),
            Lookup::Relative(path) => LookupModel::Relative(path@),
            Lookup::Search => LookupModel::Search,
        }
    }
}

/// How the command `name` is looked for from the working directory `cwd`.
pub open spec fn lookup_of(cwd: Seq<char>, name: Seq<char>) -> LookupModel {
    if !name.contains('/') {
        LookupModel::Search
    } else if name[0] == '/' {
        LookupModel::Absolute(name)
    } else {
        LookupModel::Relative(join_path(cwd, name))
    }
}

/// Index of the first listing that holds `name`, or the number of listings
/// where none does.
pub open spec fn first_holder(listings: Seq<Seq<Seq<char>>>, name: Seq<char>) -> int
    decreases listings.len(),
{
    if listings.len() == 0 || listings[0].contains(name) {
        0
    } else {
        1 + first_holder(listings.drop_first(), name)
    }
}

/// The program that a search finds for `name`: the first directory of the
/// search path whose listing holds `name`, joined with `name`. `listings`
/// holds, for each directory of the search path and in the same order, the
/// names of the files in it; a directory without a listing holds nothing.
pub open spec fn search(
    directories: Seq<Seq<char>>,
    listings: Seq<Seq<Seq<char>>>,
    name: Seq<char>,
) -> Option<Seq<char>> {
    let at = first_holder(listings, name);
    if 0 <= at < listings.len() && at < directories.len() {
        Some(join_path(directories[at], name))
    } else {
        None
    }
}

/// `first_holder` stops at the first listing that holds the name and
/// nowhere before it.
pub proof fn lemma_first_holder(listings: Seq<Seq<Seq<char>>>, name: Seq<char>)
    ensures
        0 <= first_holder(listings, name) <= listings.len(),
        forall|i: int| 0 <= i < first_holder(listings, name) ==> !listings[i].contains(name),
        first_holder(listings, name) < listings.len() ==> listings[first_holder(
            listings,
            name,
        )].contains(name),
    decreases listings.len(),
{
    if listings.len() == 0 || listings[0].contains(name) {
    } else {
        let rest = listings.drop_first();
        lemma_first_holder(rest, name);
        assert forall|i: int| 0 <= i < first_holder(listings, name) implies !listings[i].contains(
            name,
        ) by {
            if i > 0 {
                assert(listings[i] == rest[i - 1]);
            }
        }
    }
}

/// The first directory that holds the name wins: where a directory of the
/// search path holds `name` and none before it does, the program is in that
/// directory.
pub proof fn lemma_search_finds_first(
    directories: Seq<Seq<char>>,
    listings: Seq<Seq<Seq<char>>>,
    name: Seq<char>,
    at: int,
)
    requires
        0 <= at < listings.len(),
        at < directories.len(),
        listings[at].contains(name),
        forall|i: int| 0 <= i < at ==> !listings[i].contains(name),
    ensures
        search(directories, listings, name) == Some(join_path(directories[at], name)),
{
    lemma_first_holder(listings, name);
}

/// A name that no directory of the search path holds is not found.
pub proof fn lemma_search_finds_nothing(
    directories: Seq<Seq<char>>,
    listings: Seq<Seq<Seq<char>>>,
    name: Seq<char>,
)
    requires
        forall|i: int| 0 <= i < listings.len() ==> !listings[i].contains(name),
    ensures
        search(directories, listings, name).is_none(),
{
    lemma_first_holder(listings, name);
}

/// The program that the command `name` stands for, given what the file
/// system says: `canonical` is the canonical form of the path of a relative
/// name, if it has one, and `listings` is what the directories of the search
/// path hold. Of the two, only the one that [`lookup_of`] asks for counts.
pub open spec fn located(
    cwd: Seq<char>,
    directories: Seq<Seq<char>>,
    name: Seq<char>,
    canonical: Option<Seq<char>>,
    listings: Seq<Seq<Seq<char>>>,
) -> Option<Seq<char>> {
    match lookup_of(cwd, name) {
        LookupModel::Absolute(path) => Some(path),
        LookupModel::Relative(_) => canonical,
        LookupModel::Search => search(directories, listings, name),
    }
}

/// Whether a listing holds a name.
fn holds(listing: &Vec<String>, name: &str) -> (found: bool)
    ensures
        found == listing.deep_view().contains(name@),
{
    let wanted = name.to_string();
    let mut i: usize = 0;
    while i < listing.len()
        invariant
            i <= listing.len(),
            wanted@ == name@,
            forall|j: int| 0 <= j < i ==> listing.deep_view()[j] != name@,
        decreases listing.len() - i,
    {
        if listing[i] == wanted {
            assert(listing.deep_view()[i as int] == name@);
            return true;
        }
        i += 1;
    }
    false
}

impl Shell {
    /// Says what has to be asked of the file system to find the command
    /// `name`.
    pub fn find_path(&self, name: &str) -> (lookup: Lookup)
        ensures
            lookup.deep_view() == lookup_of(self.cwd@, name@),
    {
        let chars = chars_of(name);
        let at = find_from(&chars, '/', 0);
        proof {
            assert(chars@.skip(0) == chars@);
            lemma_first_index(name@, '/');
        }
        if at == chars.len() {
            Lookup::Search
        } else if chars[0] == '/' {
            Lookup::Absolute(name.to_string())
        } else {
            Lookup::Relative(joined(self.cwd.as_str(), name))
        }
    }

    /// Finds the program that the command `name` stands for, given what the
    /// file system answered to [`Shell::find_path`]: the canonical form of
    /// the path of a relative name, if it has one, or what the directories of
    /// the search path hold.
    pub fn locate(
        &self,
        name: &str,
        canonical: Option<String>,
        listings: &Vec<Vec<String>>,
    ) -> (found: Result<String, Error>)
        ensures
            match found {
                Ok(path) => located(
                    self.cwd@,
                    self.path.deep_view(),
                    name@,
                    match canonical {
                        Some(text) => Some(text@),
                        None => None,
                    },
                    listings.deep_view(),
                ) == Some(path@),
                Err(error) => error == Error::NotFound && located(
                    self.cwd@,
                    self.path.deep_view(),
                    name@,
                    match canonical {
                        Some(text) => Some(text@),
                        None => None,
                    },
                    listings.deep_view(),
                ).is_none(),
            },
    {
        match self.find_path(name) {
            Lookup::Absolute(path) => Ok(path),
            Lookup::Relative(_) => match canonical {
                Some(path) => Ok(path),
                None => Err(Error::NotFound),
            },
            Lookup::Search => self.search_path(name, listings),
        }
    }

    /// Looks for the command `name` in the directories of the search path,
    /// given what each of them holds.
    pub fn search_path(&self, name: &str, listings: &Vec<Vec<String>>) -> (found: Result<
        String,
        Error,
    >)
        ensures
            match found {
                Ok(path) => search(self.path.deep_view(), listings.deep_view(), name@) == Some(
                    path@,
                ),
                Err(error) => error == Error::NotFound && search(
                    self.path.deep_view(),
                    listings.deep_view(),
                    name@,
                ).is_none(),
            },
    {
        let ghost all = listings.deep_view();
        let mut i: usize = 0;
        assert(all.skip(0) == all);
        while i < listings.len()
            invariant
                i <= listings.len(),
                all == listings.deep_view(),
                first_holder(all, name@) == i + first_holder(all.skip(i as int), name@),
            decreases listings.len() - i,
        {
            let ghost rest = all.skip(i as int);
            assert(rest.drop_first() == all.skip(i + 1));
            if holds(&listings[i], name) {
                if i < self.path.len() {
                    return Ok(joined(self.path[i].as_str(), name));
                } else {
                    return Err(Error::NotFound);
                }
            }
            i += 1;
        }
        Err(Error::NotFound)
    }
}

} // verus!
