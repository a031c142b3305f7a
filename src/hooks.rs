//! Session hooks that carry only plain configuration.
use vstd::prelude::*;
use vstd::std_specs::convert::IntoSpec;

verus! {

/// A script to run once when the session starts.
pub struct StartupScript {
    path: String,
}

impl StartupScript {
    pub closed spec fn path_spec(&self) -> Seq<char> {
        self.path@
    }

    /// A hook that runs the script at `s`.
    pub fn new<S: Into<String>>(s: S) -> (r: Self)
        ensures
            <S as IntoSpec<String>>::obeys_into_spec() ==> r.path_spec() == s.into_spec()@,
    {
        StartupScript { path: s.into() }
    }

    /// The path of the script.
    pub fn path(&self) -> (r: &String)
        ensures
            r@ == self.path_spec(),
    {
        &self.path
    }
}

} // verus!
