//! A flat (single-level) view router, verified.
//!
//! Given the current location (path + query), the router selects a matching
//! route, resolves that route's possibly-asynchronous view, and reconciles the
//! result against one of four execution contexts: initial client mount,
//! client-side navigation update, server-side HTML generation, and hydration
//! of server-rendered markup. Route resolution may be asynchronous and
//! navigations may race each other; commits are decided by a path-equality
//! check at completion time, so at most one view is ever committed per
//! navigation and superseded resolutions are discarded silently.
//!
//! The reactive and rendering collaborators (signals, resource owners, the
//! render tree, the cooperative executor) are modelled explicitly: owners as
//! an arena with recursive release, signals as identity-tagged cells, pending
//! resolutions as tagged tasks on a queue whose race referee is the retained
//! current path.

pub mod events;
pub mod flat_router;
pub mod laws;
pub mod listing;
pub mod lnode;
pub mod location;
pub mod matching;
pub mod model;
pub mod owner;
pub mod signal;
pub mod ssr;

use vstd::prelude::*;

verus! {

/// Unrecoverable usage errors: programming mistakes detected synchronously at
/// the point of misuse, not runtime conditions.
#[derive(Clone, Copy, Debug, PartialEq, Eq, Structural)]
pub enum FatalError {
    /// A matched route carried a nested child; the flat router does not
    /// support nested routes.
    NestedRoutes,
    /// A route whose resolution does not complete on its first poll was used
    /// in a synchronous server-rendering entry point.
    AsyncRouteInSyncRender,
    /// A route whose resolution does not complete on its first poll was used
    /// in the synchronous hydration entry point.
    AsyncRouteInSyncHydrate,
}

} // verus!
