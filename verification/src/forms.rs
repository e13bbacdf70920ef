//! Defaults used when a form is submitted without a field.

use vstd::prelude::*;
use vstd::string::*;

verus! {

/// The path a login form redirects to when the request names none.
pub open spec fn default_redirect_path_spec() -> Seq<char> {
    seq!['/']
}

/// Returns the redirect target for a login form that did not supply one:
/// the site root, `/`.
pub fn default_redirect_path() -> (path: String)
    ensures
        path@ == default_redirect_path_spec(),
{
    proof {
        reveal_strlit("/");
    }
    let path = String::from_str("/");
    assert(path@ =~= seq!['/']);
    path
}

} // verus!
