//! Where the application keeps its files, as path components that start at
//! the user's home directory.

use crate::errors::{OmniverlayError, OmniverlayErrorView, OmniverlayResult};
use vstd::prelude::*;
use vstd::string::StringExecFns;

verus! {

/// The characters of each component of a path.
pub open spec fn components(path: Seq<String>) -> Seq<Seq<char>> {
    path.map_values(|c: String| c@)
}

/// Asks `dirs::home_dir` for the home directory of the current user. What
/// comes back depends on the machine and on the environment of the process,
/// so nothing is claimed of it. The path is handed on as text: where it is
/// not valid UTF-8, the parts that are not are replaced, so that the text
/// then names another path.
#[verifier::external_body]
fn find_home_dir() -> (found: Option<String>) {
    dirs::home_dir().map(|p| p.to_string_lossy().into_owned())
}

/// The home directory `found`, or the failure to find one.
pub fn home_dir_of(found: Option<String>) -> (r: OmniverlayResult<String>)
    ensures
        match found {
            Some(dir) => r matches Ok(d) && d@ == dir@,
            None => r matches Err(e) && e@ == OmniverlayErrorView::AppDirectory,
        },
{
    match found {
        Some(home_dir) => Ok(home_dir),
        None => Err(OmniverlayError::AppDirectory),
    }
}

/// The application's directory for the home directory `found`:
/// `.omniverlay` in the home directory.
pub fn omniverlay_dir_of(found: Option<String>) -> (r: OmniverlayResult<Vec<String>>)
    ensures
        match found {
            Some(dir) => r matches Ok(path) && components(path@) == seq![dir@, ".omniverlay"@],
            None => r matches Err(e) && e@ == OmniverlayErrorView::AppDirectory,
        },
{
    match home_dir_of(found) {
        Ok(home_dir) => {
            let mut path: Vec<String> = Vec::new();
            path.push(home_dir);
            path.push(String::from_str(".omniverlay"));
            assert(components(path@) =~= seq![home_dir@, ".omniverlay"@]);
            Ok(path)
        },
        Err(e) => Err(e),
    }
}

/// The directory of the profiles for the home directory `found`:
/// `profiles` in the application's directory.
pub fn profiles_dir_of(found: Option<String>) -> (r: OmniverlayResult<Vec<String>>)
    ensures
        match found {
            Some(dir) => r matches Ok(path) && components(path@) == seq![
                dir@,
                ".omniverlay"@,
                "profiles"@,
            ],
            None => r matches Err(e) && e@ == OmniverlayErrorView::AppDirectory,
        },
{
    match omniverlay_dir_of(found) {
        Ok(omniverlay_dir) => {
            let mut path = omniverlay_dir;
            let ghost base = components(path@);
            path.push(String::from_str("profiles"));
            assert(components(path@) =~= base.push("profiles"@));
            assert(components(path@) =~= seq![found->Some_0@, ".omniverlay"@, "profiles"@]);
            Ok(path)
        },
        Err(e) => Err(e),
    }
}

/// The home directory of the current user. Where none is found, the
/// failure is `AppDirectory`.
pub fn get_home_dir() -> (r: OmniverlayResult<String>)
    ensures
        r matches Err(e) ==> e@ == OmniverlayErrorView::AppDirectory,
{
    home_dir_of(find_home_dir())
}

/// The application's directory: `.omniverlay` in the home directory of the
/// current user. Where no home directory is found, the failure is `AppDirectory`.
pub fn get_omniverlay_dir() -> (r: OmniverlayResult<Vec<String>>)
    ensures
        match r {
            Ok(path) => path@.len() == 2 && path@[1]@ == ".omniverlay"@,
            Err(e) => e@ == OmniverlayErrorView::AppDirectory,
        },
{
    let found = find_home_dir();
    let r = omniverlay_dir_of(found);
    proof {
        if found is Some {
            let path = components(r->Ok_0@);
            assert(path.len() == 2);
            assert(path[1] == ".omniverlay"@);
        }
    }
    r
}

/// The directory of the profiles: `profiles` in the application's
/// directory. Where no home directory is found, the failure is `AppDirectory`.
pub fn get_profiles_dir() -> (r: OmniverlayResult<Vec<String>>)
    ensures
        match r {
            Ok(path) => path@.len() == 3 && path@[1]@ == ".omniverlay"@ && path@[2]@ == "profiles"@,
            Err(e) => e@ == OmniverlayErrorView::AppDirectory,
        },
{
    let found = find_home_dir();
    let r = profiles_dir_of(found);
    proof {
        if found is Some {
            let path = components(r->Ok_0@);
            assert(path.len() == 3);
            assert(path[1] == ".omniverlay"@);
            assert(path[2] == "profiles"@);
        }
    }
    r
}

} // verus!
