//! The current location: a path plus the query/fragment remainder.

use vstd::prelude::*;

verus! {

/// Mathematical value of a [`Url`].
#[verifier::ext_equal]
pub ghost struct UrlModel {
    pub path: Seq<char>,
    pub search: Seq<char>,
}

/// A location observed from the location provider. Only the path takes part
/// in route matching; the query/fragment remainder travels along so that
/// descendants can read it reactively.
pub struct Url {
    pub path: String,
    pub search: String,
}

impl View for Url {
    type V = UrlModel;

    open spec fn view(&self) -> UrlModel {
        UrlModel { path: self.path@, search: self.search@ }
    }
}

impl Url {
    pub fn new(path: String, search: String) -> (r: Url)
        ensures
            r@ == (UrlModel { path: path@, search: search@ }),
    {
        Url { path, search }
    }

    pub fn duplicate(&self) -> (r: Url)
        ensures
            r@ == self@,
    {
        Url { path: self.path.clone(), search: self.search.clone() }
    }
}

} // verus!
