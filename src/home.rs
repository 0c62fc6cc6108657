use vstd::prelude::*;

verus! {

/// Relies on `dirs::home_dir`: the user's home directory, if one can be found. It depends
/// on the environment, so nothing is promised of it.
#[verifier::external_body]
fn find_home_dir() -> (r: Option<String>) {
    match dirs::home_dir() {
        Some(p) => Some(p.to_string_lossy().into_owned()),
        None => None,
    }
}

/// The home directory found, or `/tmp` where none was.
pub open spec fn home_choice(found: Option<String>) -> Seq<char> {
    match found {
        Some(h) => h@,
        None => "/tmp"@,
    }
}

/// The home directory found, or `/tmp` where none was.
pub fn home_or(found: Option<String>) -> (r: String)
    ensures
        r@ == home_choice(found),
{
    match found {
        Some(h) => h,
        None => String::from_str("/tmp"),
    }
}

/// The home directory, or `/tmp` where none can be found.
pub fn home_or_tmp() -> (r: String)
    ensures
        exists|found: Option<String>| r@ == #[trigger] home_choice(found),
{
    let found = find_home_dir();
    let r = home_or(found);
    assert(r@ == home_choice(found));
    r
}

} // verus!
