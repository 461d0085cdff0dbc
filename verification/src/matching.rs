//! The outcome of testing a path against the route table.
//!
//! The path-pattern matcher itself is an external collaborator: the router
//! receives the match it produced. A match identifies which pattern matched
//! (a stable id, equal across calls exactly when the same pattern matched),
//! the extracted parameters, the matched pattern string, and the view it
//! yields together with how many executor polls that view's resolution needs.

use vstd::prelude::*;

verus! {

/// Parameters extracted by the matcher: name/value pairs.
pub type ParamsMap = Vec<(String, String)>;

/// Mathematical value of a [`ParamsMap`].
pub open spec fn params_model(p: ParamsMap) -> Seq<(Seq<char>, Seq<char>)> {
    p@.map_values(|kv: (String, String)| (kv.0@, kv.1@))
}

/// Mathematical value of a [`ViewFactory`].
#[verifier::ext_equal]
pub ghost struct ViewFactoryModel {
    pub content: Seq<char>,
    pub delay: int,
}

/// The view a match yields: the markup the resolved view renders to, and the
/// number of executor polls its resolution needs beyond the first, synchronous
/// one. `delay == 0` means the resolution completes on the first poll.
pub struct ViewFactory {
    pub content: String,
    pub delay: u64,
}

impl View for ViewFactory {
    type V = ViewFactoryModel;

    open spec fn view(&self) -> ViewFactoryModel {
        ViewFactoryModel { content: self.content@, delay: self.delay as int }
    }
}

/// Mathematical value of a [`RouteMatch`].
#[verifier::ext_equal]
pub ghost struct MatchModel {
    pub id: int,
    pub matched: Seq<char>,
    pub params: Seq<(Seq<char>, Seq<char>)>,
    pub content: Seq<char>,
    pub delay: int,
    pub has_nested_child: bool,
}

/// A successful match of a concrete path against the route table.
pub struct RouteMatch {
    /// Stable pattern identity: two matches have equal `id` exactly when the
    /// same pattern matched, whatever the parameter values.
    pub id: u64,
    /// The matched pattern string, e.g. `/users/:id`.
    pub matched: String,
    /// Extracted parameters, e.g. `id -> 2`.
    pub params: ParamsMap,
    /// The view this match yields.
    pub view: ViewFactory,
    /// Whether the match decomposed into a nested child; the flat router
    /// treats a nested child as a usage error.
    pub has_nested_child: bool,
}

impl View for RouteMatch {
    type V = MatchModel;

    open spec fn view(&self) -> MatchModel {
        MatchModel {
            id: self.id as int,
            matched: self.matched@,
            params: params_model(self.params),
            content: self.view.content@,
            delay: self.view.delay as int,
            has_nested_child: self.has_nested_child,
        }
    }
}

/// Whether a possible match carried a nested child: a usage error for the
/// flat router.
pub open spec fn match_has_child(m: Option<RouteMatch>) -> bool {
    match m {
        Some(mm) => mm.has_nested_child,
        None => false,
    }
}

/// Mathematical value of an `Option<RouteMatch>`.
pub open spec fn opt_match_model(m: Option<RouteMatch>) -> Option<MatchModel> {
    match m {
        Some(mm) => Some(mm@),
        None => None,
    }
}

} // verus!
