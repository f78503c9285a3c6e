//! Where the domain list is kept: a directory below the user's home directory.
//!
//! Paths are texts here. Which directory is the user's home is asked of the
//! system, and how a name is joined to a path is left to the standard library.

use vstd::prelude::*;

verus! {

/// The name of the directory below the home directory.
pub const FOCUS_DIR_NAME: &'static str = ".focus";

/// The name of the domain list in that directory.
pub const DOMAINS_FILE_NAME: &'static str = "domains.txt";

/// The path that `std::path::Path::join` makes of the path `base` and the path
/// `part`, in the path syntax of the platform that the crate is built for.
pub uninterp spec fn path_joined(base: Seq<char>, part: Seq<char>) -> Seq<char>;

/// The directory of this program below the home directory `home`.
pub open spec fn focus_dir_of(home: Seq<char>) -> Seq<char> {
    path_joined(home, FOCUS_DIR_NAME@)
}

/// The domain list below the home directory `home`.
pub open spec fn domains_file_of(home: Seq<char>) -> Seq<char> {
    path_joined(focus_dir_of(home), DOMAINS_FILE_NAME@)
}

/// `std::path::Path::join`, on paths that are Unicode texts: the path `base`
/// with `part` adjoined. The result is named, not spelled out; it is made of
/// the two texts and separators alone, so it is a Unicode text too and comes
/// back unchanged.
#[verifier::external_body]
fn join_path(base: &str, part: &str) -> (joined: String)
    ensures
        joined@ == path_joined(base@, part@),
{
    std::path::Path::new(base).join(part).to_string_lossy().into_owned()
}

/// `dirs::home_dir`: the user's home directory, as the system reports it at
/// the time of the call, or `None` where it reports none. Nothing is claimed
/// of the path. A home directory whose path is no Unicode text is reported as
/// `None`.
#[verifier::external_body]
fn home_dir() -> (home: Option<String>) {
    match dirs::home_dir() {
        Some(home) => home.into_os_string().into_string().ok(),
        None => None,
    }
}

/// The directory of this program below the home directory `home`.
pub fn focus_dir_in(home: &str) -> (dir: String)
    ensures
        dir@ == focus_dir_of(home@),
{
    join_path(home, FOCUS_DIR_NAME)
}

/// The domain list below the home directory `home`.
pub fn domains_file_in(home: &str) -> (file: String)
    ensures
        file@ == domains_file_of(home@),
{
    let dir = focus_dir_in(home);
    join_path(dir.as_str(), DOMAINS_FILE_NAME)
}

/// The directory of this program below the user's home directory, or `None`
/// where the system reports no home directory.
pub fn get_focus_dir() -> (dir: Option<String>)
    ensures
        dir matches Some(path) ==> exists|home: Seq<char>| path@ == focus_dir_of(home),
{
    let dir = focus_dir_for(home_dir());
    if let Some(path) = &dir {
        assert(exists|home: Seq<char>| path@ == focus_dir_of(home));
    }
    dir
}

/// The domain list below the user's home directory, or `None` where the
/// system reports no home directory.
pub fn get_domains_file() -> (file: Option<String>)
    ensures
        file matches Some(path) ==> exists|home: Seq<char>| path@ == domains_file_of(home),
{
    let file = domains_file_for(home_dir());
    if let Some(path) = &file {
        assert(exists|home: Seq<char>| path@ == domains_file_of(home));
    }
    file
}

/// The directory of this program for a home directory as the system reported
/// it: the directory below `home` where there is one, `None` where there is
/// none.
pub fn focus_dir_for(home: Option<String>) -> (dir: Option<String>)
    ensures
        home is None ==> dir is None,
        home matches Some(below) ==> (dir matches Some(path) && path@ == focus_dir_of(below@)),
{
    match home {
        Some(below) => Some(focus_dir_in(below.as_str())),
        None => None,
    }
}

/// The domain list for a home directory as the system reported it: the list
/// below `home` where there is one, `None` where there is none.
pub fn domains_file_for(home: Option<String>) -> (file: Option<String>)
    ensures
        home is None ==> file is None,
        home matches Some(below) ==> (file matches Some(path) && path@ == domains_file_of(
            below@,
        )),
{
    match home {
        Some(below) => Some(domains_file_in(below.as_str())),
        None => None,
    }
}

} // verus!
