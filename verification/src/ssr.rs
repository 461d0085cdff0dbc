//! Server-side rendering and hydration.
//!
//! Server rendering is single-shot: match the current url once, build the
//! view under a fresh owner, and require the resolution to complete on its
//! first poll — a route that suspends is a fatal usage error here. Markup can
//! be emitted eagerly into a string buffer or incrementally into a stream
//! builder; when branch marking is on, a matched route's markup is bracketed
//! with begin/end markers carrying the matched pattern. Hydration rebuilds
//! the same retained state the client build produces, so later navigations
//! behave uniformly; the synchronous entry point has the same first-poll
//! contract, the asynchronous one awaits resolution fully.

use vstd::prelude::*;
use crate::flat_router::FlatRouter;
use crate::flat_router::RouterState;
use crate::flat_router::ViewState;
use crate::listing::base_segments;
use crate::listing::generate_route_list;
use crate::listing::GeneratedRouteData;
use crate::listing::RouteListing;
use crate::location::Url;
use crate::location::UrlModel;
use crate::matching::match_has_child;
use crate::matching::opt_match_model;
use crate::matching::MatchModel;
use crate::matching::RouteMatch;
use crate::model::built_model;
use crate::model::lemma_built_inv;
use crate::model::RouterModel;
use crate::model::CTX_MATCHED;
use crate::model::CTX_PARAMS;
use crate::model::CTX_URL;
use crate::owner::OwnerArena;
use crate::signal::Sig;
use crate::FatalError;

verus! {

/// Where the next markup lands relative to the nodes already emitted.
#[derive(Clone, Copy, Debug, PartialEq, Eq, Structural)]
pub enum Position {
    Current,
    FirstChild,
    NextChild,
    NextChildAfterText,
    LastChild,
}

/// A buffered, chunked markup sink: the streaming counterpart of a plain
/// string buffer.
pub struct StreamBuilder {
    /// Markup already emitted synchronously into the current chunk.
    pub sync_buf: String,
}

impl StreamBuilder {
    pub fn new() -> (r: StreamBuilder)
        ensures
            r.sync_buf@ == Seq::<char>::empty(),
    {
        StreamBuilder { sync_buf: String::new() }
    }

    /// Append markup to the current chunk.
    pub fn push_sync(&mut self, s: &str)
        ensures
            final(self).sync_buf@ == old(self).sync_buf@ + s@,
    {
        self.sync_buf.append(s);
    }
}

/// The begin marker bracketing a matched route's markup.
pub open spec fn open_marker(id: Seq<char>) -> Seq<char> {
    "<!--route:"@ + id + "-->"@
}

/// The end marker bracketing a matched route's markup.
pub open spec fn close_marker(id: Seq<char>) -> Seq<char> {
    "<!--/route:"@ + id + "-->"@
}

/// A route's emitted markup: bracketed with its markers exactly when branch
/// marking is on and output is escaped.
pub open spec fn marked_html(id: Seq<char>, html: Seq<char>, escape: bool, mark: bool) -> Seq<
    char,
> {
    if mark && escape {
        open_marker(id) + html + close_marker(id)
    } else {
        html
    }
}

/// A resolved view paired with the matched pattern that produced it, so that
/// server-emitted markup can be bracketed with matching begin/end markers.
/// Client updates and hydration never need the markers.
pub struct MatchedRoute(pub String, pub String);

impl MatchedRoute {
    /// Emit the markup eagerly, bracketed if branch marking is on. A marked
    /// emission never ends in bare text, so a next-child-after-text position
    /// decays to plain next-child.
    pub fn to_html_with_buf(
        self,
        buf: &mut String,
        position: &mut Position,
        escape: bool,
        mark_branches: bool,
    )
        ensures
            final(buf)@ == old(buf)@ + marked_html(self.0@, self.1@, escape, mark_branches),
            *final(position) == (if mark_branches && escape && *old(position)
                == Position::NextChildAfterText {
                Position::NextChild
            } else {
                *old(position)
            }),
    {
        let MatchedRoute(id, html) = self;
        if mark_branches && escape {
            buf.append("<!--route:");
            buf.append(id.as_str());
            buf.append("-->");
        }
        buf.append(html.as_str());
        if mark_branches && escape {
            buf.append("<!--/route:");
            buf.append(id.as_str());
            buf.append("-->");
            if *position == Position::NextChildAfterText {
                *position = Position::NextChild;
            }
        }
    }

    /// Emit the markup into the stream's current chunk, bracketed the same
    /// way as the eager emission.
    pub fn to_html_async_with_buf(
        self,
        buf: &mut StreamBuilder,
        position: &mut Position,
        escape: bool,
        mark_branches: bool,
    )
        ensures
            final(buf).sync_buf@ == old(buf).sync_buf@ + marked_html(
                self.0@,
                self.1@,
                escape,
                mark_branches,
            ),
            *final(position) == (if mark_branches && escape && *old(position)
                == Position::NextChildAfterText {
                Position::NextChild
            } else {
                *old(position)
            }),
    {
        let MatchedRoute(id, html) = self;
        if mark_branches && escape {
            buf.push_sync("<!--route:");
            buf.push_sync(id.as_str());
            buf.push_sync("-->");
        }
        buf.push_sync(html.as_str());
        if mark_branches && escape {
            buf.push_sync("<!--/route:");
            buf.push_sync(id.as_str());
            buf.push_sync("-->");
            if *position == Position::NextChildAfterText {
                *position = Position::NextChild;
            }
        }
    }
}

/// Mathematical value of the view a single-shot server render chooses.
#[verifier::ext_equal]
pub ghost enum SsrViewModel {
    /// The configured fallback's markup: no route matched.
    Fallback(Seq<char>),
    /// A matched route: pattern and resolved markup.
    Matched(Seq<char>, Seq<char>),
}

/// The view a single-shot server render chooses.
pub enum SsrView {
    Fallback(String),
    Matched(MatchedRoute),
}

impl View for SsrView {
    type V = SsrViewModel;

    open spec fn view(&self) -> SsrViewModel {
        match self {
            SsrView::Fallback(html) => SsrViewModel::Fallback(html@),
            SsrView::Matched(mr) => SsrViewModel::Matched(mr.0@, mr.1@),
        }
    }
}

/// What a single-shot server render must choose: the fallback when nothing
/// matched, the matched route's view when its resolution completes on the
/// first poll, and a fatal error when it does not — server rendering cannot
/// suspend here.
pub open spec fn choose_ssr_model(fallback: Seq<char>, m: Option<MatchModel>) -> Result<
    SsrViewModel,
    FatalError,
> {
    match m {
        None => Ok(SsrViewModel::Fallback(fallback)),
        Some(mm) => if mm.delay == 0 {
            Ok(SsrViewModel::Matched(mm.matched, mm.content))
        } else {
            Err(FatalError::AsyncRouteInSyncRender)
        },
    }
}

/// Match once, build once: choose the view a single-shot server render emits.
pub fn choose_ssr(fallback: &str, new_match: Option<RouteMatch>) -> (res: Result<
    SsrView,
    FatalError,
>)
    ensures
        match res {
            Ok(v) => choose_ssr_model(fallback@, opt_match_model(new_match)) == Ok::<
                SsrViewModel,
                FatalError,
            >(v@),
            Err(e) => choose_ssr_model(fallback@, opt_match_model(new_match)) == Err::<
                SsrViewModel,
                FatalError,
            >(e),
        },
{
    match new_match {
        None => Ok(SsrView::Fallback(fallback.to_owned())),
        Some(m) => {
            if m.view.delay == 0 {
                Ok(SsrView::Matched(MatchedRoute(m.matched, m.view.content)))
            } else {
                Err(FatalError::AsyncRouteInSyncRender)
            }
        },
    }
}

/// The markup a single-shot server render appends to the buffer.
pub open spec fn ssr_html(
    fallback: Seq<char>,
    m: Option<MatchModel>,
    escape: bool,
    mark: bool,
) -> Seq<char> {
    match m {
        None => fallback,
        Some(mm) => marked_html(mm.matched, mm.content, escape, mark),
    }
}

/// Render the current match eagerly into a string buffer. The fallback is
/// emitted bare; a matched route is emitted through its marker bracketing.
pub fn to_html_with_buf(
    fallback: &str,
    new_match: Option<RouteMatch>,
    buf: &mut String,
    position: &mut Position,
    escape: bool,
    mark_branches: bool,
) -> (res: Result<(), FatalError>)
    ensures
        match res {
            Ok(()) => {
                &&& final(buf)@ == old(buf)@ + ssr_html(
                    fallback@,
                    opt_match_model(new_match),
                    escape,
                    mark_branches,
                )
                &&& *final(position) == (if mark_branches && escape && *old(position)
                    == Position::NextChildAfterText && opt_match_model(new_match) is Some {
                    Position::NextChild
                } else {
                    *old(position)
                })
            },
            Err(e) => {
                &&& e == FatalError::AsyncRouteInSyncRender
                &&& choose_ssr_model(fallback@, opt_match_model(new_match)) == Err::<
                    SsrViewModel,
                    FatalError,
                >(e)
                &&& *final(buf) == *old(buf)
                &&& *final(position) == *old(position)
            },
        },
{
    match choose_ssr(fallback, new_match)? {
        SsrView::Fallback(html) => {
            buf.append(html.as_str());
            Ok(())
        },
        SsrView::Matched(mr) => {
            mr.to_html_with_buf(buf, position, escape, mark_branches);
            Ok(())
        },
    }
}

/// Render the current match into the stream's current chunk; the match,
/// build and resolve steps are those of the eager emission.
pub fn to_html_async_with_buf(
    fallback: &str,
    new_match: Option<RouteMatch>,
    buf: &mut StreamBuilder,
    position: &mut Position,
    escape: bool,
    mark_branches: bool,
) -> (res: Result<(), FatalError>)
    ensures
        match res {
            Ok(()) => {
                &&& final(buf).sync_buf@ == old(buf).sync_buf@ + ssr_html(
                    fallback@,
                    opt_match_model(new_match),
                    escape,
                    mark_branches,
                )
                &&& *final(position) == (if mark_branches && escape && *old(position)
                    == Position::NextChildAfterText && opt_match_model(new_match) is Some {
                    Position::NextChild
                } else {
                    *old(position)
                })
            },
            Err(e) => {
                &&& e == FatalError::AsyncRouteInSyncRender
                &&& choose_ssr_model(fallback@, opt_match_model(new_match)) == Err::<
                    SsrViewModel,
                    FatalError,
                >(e)
                &&& *final(buf) == *old(buf)
                &&& *final(position) == *old(position)
            },
        },
{
    match choose_ssr(fallback, new_match)? {
        SsrView::Fallback(html) => {
            buf.push_sync(html.as_str());
            Ok(())
        },
        SsrView::Matched(mr) => {
            mr.to_html_async_with_buf(buf, position, escape, mark_branches);
            Ok(())
        },
    }
}

/// The server entry point: when the process is enumerating routes, walk the
/// route table and hand back the listing — the current url is ignored and no
/// view is built; otherwise render the current match into the buffer.
pub fn render_or_enumerate(
    generating: bool,
    base: Option<String>,
    routes: Vec<GeneratedRouteData>,
    fallback: &str,
    new_match: Option<RouteMatch>,
    buf: &mut String,
    position: &mut Position,
    escape: bool,
    mark_branches: bool,
) -> (res: Result<Option<Vec<RouteListing>>, FatalError>)
    ensures
        generating ==> {
            &&& res is Ok
            &&& res->Ok_0 is Some
            &&& {
                let listing = res->Ok_0->0@;
                &&& listing.len() == routes@.len()
                &&& forall|i: int|
                    0 <= i < routes@.len() ==> {
                        &&& (#[trigger] listing[i]).path@ == base_segments(base)
                            + routes@[i].segments@
                        &&& listing[i].mode == routes@[i].mode
                        &&& listing[i].methods@ == routes@[i].methods@
                        &&& listing[i].regenerate == routes@[i].regenerate
                    }
            }
            &&& *final(buf) == *old(buf)
            &&& *final(position) == *old(position)
        },
        !generating ==> match res {
            Ok(listing) => {
                &&& listing is None
                &&& final(buf)@ == old(buf)@ + ssr_html(
                    fallback@,
                    opt_match_model(new_match),
                    escape,
                    mark_branches,
                )
            },
            Err(e) => {
                &&& e == FatalError::AsyncRouteInSyncRender
                &&& choose_ssr_model(fallback@, opt_match_model(new_match)) == Err::<
                    SsrViewModel,
                    FatalError,
                >(e)
                &&& *final(buf) == *old(buf)
            },
        },
{
    if generating {
        Ok(Some(generate_route_list(base, routes)))
    } else {
        to_html_with_buf(fallback, new_match, buf, position, escape, mark_branches)?;
        Ok(None)
    }
}

/// What synchronous hydration yields: the same retained state the client
/// build produces, or a fatal error — on a nested child, or on a route whose
/// resolution does not complete on its first poll, since synchronous
/// hydration cannot suspend.
pub open spec fn hydrate_outcome(
    fallback: Seq<char>,
    url: UrlModel,
    m: Option<MatchModel>,
) -> Result<RouterModel, FatalError> {
    match m {
        Some(mm) => if mm.has_nested_child {
            Err(FatalError::NestedRoutes)
        } else if mm.delay > 0 {
            Err(FatalError::AsyncRouteInSyncHydrate)
        } else {
            Ok(built_model(fallback, url, m, true))
        },
        None => Ok(built_model(fallback, url, m, true)),
    }
}

/// What asynchronous hydration yields: resolution is awaited fully, so only
/// a nested child is fatal.
pub open spec fn hydrate_async_outcome(
    fallback: Seq<char>,
    url: UrlModel,
    m: Option<MatchModel>,
) -> Result<RouterModel, FatalError> {
    match m {
        Some(mm) => if mm.has_nested_child {
            Err(FatalError::NestedRoutes)
        } else {
            Ok(built_model(fallback, url, m, true))
        },
        None => Ok(built_model(fallback, url, m, true)),
    }
}

/// A route whose resolution needs more than one poll is fatal for every
/// synchronous entry point — server rendering and synchronous hydration —
/// while asynchronous hydration succeeds on the very same route.
pub proof fn law_sync_entry_points_reject_slow_routes(
    fallback: Seq<char>,
    url: UrlModel,
    m: MatchModel,
)
    requires
        m.delay > 0,
        !m.has_nested_child,
    ensures
        choose_ssr_model(fallback, Some(m)) == Err::<SsrViewModel, FatalError>(
            FatalError::AsyncRouteInSyncRender,
        ),
        hydrate_outcome(fallback, url, Some(m)) == Err::<RouterModel, FatalError>(
            FatalError::AsyncRouteInSyncHydrate,
        ),
        hydrate_async_outcome(fallback, url, Some(m)) == Ok::<RouterModel, FatalError>(
            built_model(fallback, url, Some(m), true),
        ),
{
}

/// Build the retained state with the view already resolved, as both
/// hydration entry points hand it back.
fn build_resolved(fallback: String, url: Url, new_match: Option<RouteMatch>) -> (router:
    FlatRouter)
    requires
        !match_has_child(new_match),
    ensures
        router.wf(),
        router@ == built_model(fallback@, url@, opt_match_model(new_match), true),
{
    let mut arena = OwnerArena::new();
    let owner = arena.child(0);
    arena.provide(owner, CTX_URL, 0);
    arena.provide(owner, CTX_PARAMS, 1);
    arena.provide(owner, CTX_MATCHED, 2);
    let path = url.path.clone();
    let ghost url_model = url@;
    let ghost m_model = opt_match_model(new_match);
    let router = match new_match {
        None => FlatRouter {
            fallback,
            outer_owner: 0,
            arena,
            state: RouterState {
                view: ViewState::Fallback { nav: 0 },
                route_id: None,
                owner,
                params: Sig::new(1, Vec::new()),
                path,
                url: Sig::new(0, url),
                matched: Sig::new(2, String::new()),
            },
            pending: Vec::new(),
            next_signal: 3,
            navs: 1,
            acks: 1,
            is_routing: false,
        },
        Some(m) => FlatRouter {
            fallback,
            outer_owner: 0,
            arena,
            state: RouterState {
                view: ViewState::Routed { route_id: m.id, content: m.view.content, nav: 0 },
                route_id: Some(m.id),
                owner,
                params: Sig::new(1, m.params),
                path,
                url: Sig::new(0, url),
                matched: Sig::new(2, m.matched),
            },
            pending: Vec::new(),
            next_signal: 3,
            navs: 1,
            acks: 1,
            is_routing: false,
        },
    };
    proof {
        lemma_built_inv(router.fallback@, url_model, m_model, true);
        assert(router@ =~~= built_model(router.fallback@, url_model, m_model, true));
    }
    router
}

impl FlatRouter {
    /// Synchronous hydration: reattach to server-rendered markup. The match
    /// must resolve on its first poll; a route that suspends is fatal here
    /// and needs the asynchronous entry point.
    pub fn hydrate(fallback: String, url: Url, new_match: Option<RouteMatch>) -> (res: Result<
        FlatRouter,
        FatalError,
    >)
        ensures
            match res {
                Ok(router) => {
                    &&& router.wf()
                    &&& hydrate_outcome(fallback@, url@, opt_match_model(new_match)) == Ok::<
                        RouterModel,
                        FatalError,
                    >(router@)
                },
                Err(e) => hydrate_outcome(fallback@, url@, opt_match_model(new_match)) == Err::<
                    RouterModel,
                    FatalError,
                >(e),
            },
    {
        match &new_match {
            Some(m) => {
                if m.has_nested_child {
                    return Err(FatalError::NestedRoutes);
                }
                if m.view.delay > 0 {
                    return Err(FatalError::AsyncRouteInSyncHydrate);
                }
            },
            None => {},
        }
        Ok(build_resolved(fallback, url, new_match))
    }

    /// Asynchronous hydration: await the resolution fully, then reattach. No
    /// first-poll restriction; only a nested child is fatal.
    pub fn hydrate_async(fallback: String, url: Url, new_match: Option<RouteMatch>) -> (res:
        Result<FlatRouter, FatalError>)
        ensures
            match res {
                Ok(router) => {
                    &&& router.wf()
                    &&& hydrate_async_outcome(fallback@, url@, opt_match_model(new_match)) == Ok::<
                        RouterModel,
                        FatalError,
                    >(router@)
                },
                Err(e) => hydrate_async_outcome(fallback@, url@, opt_match_model(new_match))
                    == Err::<RouterModel, FatalError>(e),
            },
    {
        match &new_match {
            Some(m) => {
                if m.has_nested_child {
                    return Err(FatalError::NestedRoutes);
                }
            },
            None => {},
        }
        Ok(build_resolved(fallback, url, new_match))
    }
}

} // verus!
