//! The router view state machine.
//!
//! One retained record per mounted router, created at first build and mutated
//! in place on every navigation. A navigation either refreshes the url signal
//! (same path), updates the params/matched signals in place (same pattern), or
//! performs a full transition: fresh owner, fresh signals, and a view that is
//! committed synchronously or resolved by a queued task. A queued task, when
//! polled to completion, commits its view only if its target path still equals
//! the current path; a superseded resolution is discarded silently.

use vstd::prelude::*;
use crate::location::Url;
use crate::matching::match_has_child;
use crate::matching::opt_match_model;
use crate::matching::params_model;
use crate::matching::ParamsMap;
use crate::matching::RouteMatch;
use crate::model::built_model;
use crate::model::inv;
use crate::model::lemma_built_inv;
use crate::model::lemma_poll_preserves_inv;
use crate::model::lemma_rebuild_preserves_inv;
use crate::model::poll_step;
use crate::model::rebuild_model;
use crate::model::RetainedModel;
use crate::model::RouterModel;
use crate::model::TaskModel;
use crate::model::ViewModel;
use crate::model::CTX_MATCHED;
use crate::model::CTX_PARAMS;
use crate::model::CTX_URL;
use crate::owner::lemma_flat_is_under;
use crate::owner::OwnerArena;
use crate::signal::Sig;
use crate::signal::SigModel;
use crate::FatalError;

verus! {

/// The retained render-tree handle: which view is showing and which
/// navigation produced it.
#[derive(Debug)]
pub enum ViewState {
    /// The configured fallback, shown because no route matched.
    Fallback { nav: u64 },
    /// A transient placeholder, shown while a resolution is in flight.
    Placeholder { nav: u64 },
    /// A committed route view.
    Routed { route_id: u64, content: String, nav: u64 },
}

impl View for ViewState {
    type V = ViewModel;

    open spec fn view(&self) -> ViewModel {
        match self {
            ViewState::Fallback { nav } => ViewModel::Fallback { nav: *nav as int },
            ViewState::Placeholder { nav } => ViewModel::Placeholder { nav: *nav as int },
            ViewState::Routed { route_id, content, nav } => ViewModel::Routed {
                route_id: *route_id as int,
                content: content@,
                nav: *nav as int,
            },
        }
    }
}

/// The outgoing owner and signals a full transition keeps alive until the
/// incoming view's resolution completes.
pub struct RetainedBundle {
    pub owner: usize,
    pub url: Sig<Url>,
    pub params: Sig<ParamsMap>,
    pub matched: Sig<String>,
}

/// Mathematical value of a params signal.
pub open spec fn params_sig_model(s: Sig<ParamsMap>) -> SigModel<Seq<(Seq<char>, Seq<char>)>> {
    SigModel { id: s.id as int, value: params_model(s.value) }
}

impl View for RetainedBundle {
    type V = RetainedModel;

    open spec fn view(&self) -> RetainedModel {
        RetainedModel {
            owner: self.owner as int,
            url: self.url.model(),
            params: params_sig_model(self.params),
            matched: self.matched.model(),
        }
    }
}

/// One in-flight view resolution on the executor's queue.
pub struct PendingTask {
    /// The path current when this resolution started.
    pub target_path: String,
    /// Polls left until the resolution completes; always at least one.
    pub remaining: u64,
    pub route_id: u64,
    pub content: String,
    /// The navigation that started this resolution.
    pub nav: u64,
    /// The owner allocated for the incoming view.
    pub new_owner: usize,
    /// What to drop once the resolution completes; the very first build retains
    /// nothing.
    pub retained: Option<RetainedBundle>,
}

impl View for PendingTask {
    type V = TaskModel;

    open spec fn view(&self) -> TaskModel {
        TaskModel {
            target_path: self.target_path@,
            remaining: self.remaining as int,
            route_id: self.route_id as int,
            content: self.content@,
            nav: self.nav as int,
            new_owner: self.new_owner as int,
            retained: match self.retained {
                Some(b) => Some(b@),
                None => None,
            },
        }
    }
}

/// The retained record: current view, committed route id, current owner, the
/// three injected signals, and the last-seen path.
pub struct RouterState {
    pub view: ViewState,
    pub route_id: Option<u64>,
    pub owner: usize,
    pub params: Sig<ParamsMap>,
    pub path: String,
    pub url: Sig<Url>,
    pub matched: Sig<String>,
}

/// What one executor poll of a pending resolution did.
#[derive(Clone, Copy, Debug, PartialEq, Eq, Structural)]
pub enum PollOutcome {
    /// The resolution needs more polls.
    NotReady,
    /// The resolution completed and its view was committed: its target path
    /// was still the current path.
    Committed,
    /// The resolution completed superseded and was discarded.
    Discarded,
}

/// A mounted flat router.
pub struct FlatRouter {
    /// Markup of the configured fallback view.
    pub fallback: String,
    /// Handle of the caller-supplied outer owner.
    pub outer_owner: usize,
    pub arena: OwnerArena,
    pub state: RouterState,
    pub pending: Vec<PendingTask>,
    pub next_signal: u64,
    pub navs: u64,
    pub acks: u64,
    pub is_routing: bool,
}

impl View for FlatRouter {
    type V = RouterModel;

    open spec fn view(&self) -> RouterModel {
        RouterModel {
            fallback: self.fallback@,
            outer: self.outer_owner as int,
            arena: self.arena@,
            path: self.state.path@,
            route_id: match self.state.route_id {
                Some(id) => Some(id as int),
                None => None,
            },
            view: self.state.view@,
            owner: self.state.owner as int,
            url: self.state.url.model(),
            params: params_sig_model(self.state.params),
            matched: self.state.matched.model(),
            pending: self.pending@.map_values(|t: PendingTask| t@),
            next_sig: self.next_signal as int,
            navs: self.navs as int,
            acks: self.acks as int,
            is_routing: self.is_routing,
        }
    }
}

impl FlatRouter {
    /// The router's invariant holds of its mathematical value.
    pub open spec fn wf(&self) -> bool {
        inv(self@)
    }

    /// Room for the counters a navigation bumps.
    pub open spec fn counters_ok(&self) -> bool {
        &&& self.navs < u64::MAX
        &&& self.acks < u64::MAX
        &&& self.next_signal <= u64::MAX - 3
    }

    /// First build: match the initial location, set up owner and signals, and
    /// either commit a view synchronously or queue its resolution behind a
    /// placeholder. A nested child is a usage error and builds nothing.
    pub fn build(fallback: String, url: Url, new_match: Option<RouteMatch>) -> (res: Result<
        FlatRouter,
        FatalError,
    >)
        ensures
            match res {
                Ok(router) => {
                    &&& !match_has_child(new_match)
                    &&& router.wf()
                    &&& router@ == built_model(fallback@, url@, opt_match_model(new_match), false)
                },
                Err(e) => {
                    &&& e == FatalError::NestedRoutes
                    &&& match_has_child(new_match)
                },
            },
    {
        let has_child = match &new_match {
            Some(m) => m.has_nested_child,
            None => false,
        };
        if has_child {
            return Err(FatalError::NestedRoutes);
        }
        let mut arena = OwnerArena::new();
        let owner = arena.child(0);
        arena.provide(owner, CTX_URL, 0);
        arena.provide(owner, CTX_PARAMS, 1);
        arena.provide(owner, CTX_MATCHED, 2);
        let path = url.path.clone();
        let ghost url_model = url@;
        let ghost m_model = opt_match_model(new_match);
        let router = match new_match {
            None => FlatRouter {
                fallback,
                outer_owner: 0,
                arena,
                state: RouterState {
                    view: ViewState::Fallback { nav: 0 },
                    route_id: None,
                    owner,
                    params: Sig::new(1, Vec::new()),
                    path,
                    url: Sig::new(0, url),
                    matched: Sig::new(2, String::new()),
                },
                pending: Vec::new(),
                next_signal: 3,
                navs: 1,
                acks: 1,
                is_routing: false,
            },
            Some(m) => {
                let delayed = m.view.delay > 0;
                let mut pending: Vec<PendingTask> = Vec::new();
                let view = if delayed {
                    pending.push(
                        PendingTask {
                            target_path: path.clone(),
                            remaining: m.view.delay,
                            route_id: m.id,
                            content: m.view.content,
                            nav: 0,
                            new_owner: owner,
                            retained: None,
                        },
                    );
                    ViewState::Placeholder { nav: 0 }
                } else {
                    ViewState::Routed { route_id: m.id, content: m.view.content, nav: 0 }
                };
                FlatRouter {
                    fallback,
                    outer_owner: 0,
                    arena,
                    state: RouterState {
                        view,
                        route_id: Some(m.id),
                        owner,
                        params: Sig::new(1, m.params),
                        path,
                        url: Sig::new(0, url),
                        matched: Sig::new(2, m.matched),
                    },
                    pending,
                    next_signal: 3,
                    navs: 1,
                    acks: if delayed {
                        0
                    } else {
                        1
                    },
                    is_routing: delayed,
                }
            },
        };
        proof {
            lemma_built_inv(router.fallback@, url_model, m_model, false);
            assert(router@ =~~= built_model(router.fallback@, url_model, m_model, false));
        }
        Ok(router)
    }

    /// One navigation: the update algorithm. Same path refreshes the url
    /// signal only; same pattern updates params/matched/url in place; a
    /// different pattern (or into/out of "no match") performs a full
    /// transition. A nested child is a usage error and changes nothing.
    pub fn rebuild(&mut self, url: Url, new_match: Option<RouteMatch>) -> (res: Result<
        (),
        FatalError,
    >)
        requires
            old(self).wf(),
            old(self).counters_ok(),
        ensures
            match res {
                Ok(()) => {
                    &&& !match_has_child(new_match)
                    &&& final(self).wf()
                    &&& final(self)@ == rebuild_model(
                        old(self)@,
                        url@,
                        opt_match_model(new_match),
                    )
                },
                Err(e) => {
                    &&& e == FatalError::NestedRoutes
                    &&& match_has_child(new_match)
                    &&& *final(self) == *old(self)
                },
            },
    {
        let has_child = match &new_match {
            Some(m) => m.has_nested_child,
            None => false,
        };
        if has_child {
            return Err(FatalError::NestedRoutes);
        }
        let ghost pre = self@;
        let ghost url_model = url@;
        let ghost m_model = opt_match_model(new_match);
        let nav = self.navs;

        // Fast path: only query/fragment changed.
        if url.path == self.state.path {
            self.state.url.set(url);
            self.navs = nav + 1;
            self.acks = self.acks + 1;
            proof {
                lemma_rebuild_preserves_inv(pre, url_model, m_model);
                assert(self@ =~~= rebuild_model(pre, url_model, m_model));
            }
            return Ok(());
        }

        // Same pattern, different parameters: update signals in place.
        let same_route = match &new_match {
            Some(m) => match &self.state.route_id {
                Some(id) => m.id == *id,
                None => false,
            },
            None => false,
        };
        if same_route {
            let m = match new_match {
                Some(m) => m,
                None => vstd::pervasive::unreached(),  // same_route implies a match
            };
            self.state.path = url.path.clone();
            self.state.url.set(url);
            self.state.params.set(m.params);
            self.state.matched.set(m.matched);
            self.navs = nav + 1;
            self.acks = self.acks + 1;
            proof {
                lemma_rebuild_preserves_inv(pre, url_model, m_model);
                assert(self@ =~~= rebuild_model(pre, url_model, m_model));
            }
            return Ok(());
        }

        // Full transition: fresh owner, fresh signals, new view.
        let new_path = url.path.clone();
        let new_owner = self.arena.child(self.outer_owner);
        let url_id = self.next_signal;
        let params_id = self.next_signal + 1;
        let matched_id = self.next_signal + 2;
        self.next_signal = self.next_signal + 3;
        self.arena.provide(new_owner, CTX_URL, url_id);
        self.arena.provide(new_owner, CTX_PARAMS, params_id);
        self.arena.provide(new_owner, CTX_MATCHED, matched_id);
        match new_match {
            None => {
                // No match: rebuild the fallback synchronously and drop the
                // outgoing owner at once (the fallback cannot race).
                let mut swapped = RouterState {
                    view: ViewState::Fallback { nav },
                    route_id: None,
                    owner: new_owner,
                    params: Sig::new(params_id, Vec::new()),
                    path: new_path,
                    url: Sig::new(url_id, url),
                    matched: Sig::new(matched_id, String::new()),
                };
                core::mem::swap(&mut self.state, &mut swapped);
                let old_state = swapped;
                proof {
                    lemma_flat_is_under(
                        self.arena@.parents,
                        self.outer_owner as int,
                        old_state.owner as int,
                    );
                }
                self.arena.release(old_state.owner);
                self.navs = nav + 1;
                self.acks = self.acks + 1;
                proof {
                    lemma_rebuild_preserves_inv(pre, url_model, m_model);
                    assert(self@.arena.alive =~= rebuild_model(
                        pre,
                        url_model,
                        m_model,
                    ).arena.alive);
                    assert(self@ =~~= rebuild_model(pre, url_model, m_model));
                }
                Ok(())
            },
            Some(m) => {
                if m.view.delay == 0 {
                    // The resolution completes on its first poll: commit now
                    // and drop the outgoing owner.
                    let mut swapped = RouterState {
                        view: ViewState::Routed {
                            route_id: m.id,
                            content: m.view.content,
                            nav,
                        },
                        route_id: Some(m.id),
                        owner: new_owner,
                        params: Sig::new(params_id, m.params),
                        path: new_path,
                        url: Sig::new(url_id, url),
                        matched: Sig::new(matched_id, m.matched),
                    };
                    core::mem::swap(&mut self.state, &mut swapped);
                    let old_state = swapped;
                    proof {
                        lemma_flat_is_under(
                            self.arena@.parents,
                            self.outer_owner as int,
                            old_state.owner as int,
                        );
                    }
                    self.arena.release(old_state.owner);
                    self.navs = nav + 1;
                    self.acks = self.acks + 1;
                    proof {
                        lemma_rebuild_preserves_inv(pre, url_model, m_model);
                        assert(self@.arena.alive =~= rebuild_model(
                            pre,
                            url_model,
                            m_model,
                        ).arena.alive);
                        assert(self@ =~~= rebuild_model(pre, url_model, m_model));
                    }
                    Ok(())
                } else {
                    // Slow resolution: install a placeholder, queue the resolution,
                    // and retain the outgoing owner and signals until it
                    // completes. Acknowledgment is deferred to its completion.
                    let mut swapped = RouterState {
                        view: ViewState::Placeholder { nav },
                        route_id: Some(m.id),
                        owner: new_owner,
                        params: Sig::new(params_id, m.params),
                        path: new_path.clone(),
                        url: Sig::new(url_id, url),
                        matched: Sig::new(matched_id, m.matched),
                    };
                    core::mem::swap(&mut self.state, &mut swapped);
                    let old_state = swapped;
                    self.pending.push(
                        PendingTask {
                            target_path: new_path,
                            remaining: m.view.delay,
                            route_id: m.id,
                            content: m.view.content,
                            nav,
                            new_owner,
                            retained: Some(
                                RetainedBundle {
                                    owner: old_state.owner,
                                    url: old_state.url,
                                    params: old_state.params,
                                    matched: old_state.matched,
                                },
                            ),
                        },
                    );
                    self.navs = nav + 1;
                    self.is_routing = true;
                    proof {
                        lemma_rebuild_preserves_inv(pre, url_model, m_model);
                        assert(self@.pending =~= rebuild_model(
                            pre,
                            url_model,
                            m_model,
                        ).pending);
                        assert(self@ =~~= rebuild_model(pre, url_model, m_model));
                    }
                    Ok(())
                }
            },
        }
    }

    /// One executor poll of pending resolution `i`. Completion checks the
    /// race referee — the current path — and commits or discards; either way
    /// the retained owner is dropped, the queue entry is consumed, and the
    /// navigation is acknowledged.
    pub fn poll_task(&mut self, i: usize) -> (o: PollOutcome)
        requires
            old(self).wf(),
            i < old(self).pending.len(),
            old(self).acks < u64::MAX,
        ensures
            final(self).wf(),
            final(self)@ == poll_step(old(self)@, i as int),
            o == PollOutcome::NotReady <==> old(self)@.pending[i as int].remaining > 1,
            o == PollOutcome::Committed <==> (old(self)@.pending[i as int].remaining <= 1
                && old(self)@.pending[i as int].target_path == old(self)@.path),
    {
        let ghost pre = self@;
        if self.pending[i].remaining > 1 {
            let mut t = self.pending.remove(i);
            t.remaining = t.remaining - 1;
            self.pending.insert(i, t);
            proof {
                lemma_poll_preserves_inv(pre, i as int);
                assert(self@.pending =~~= poll_step(pre, i as int).pending);
                assert(self@ =~~= poll_step(pre, i as int));
            }
            PollOutcome::NotReady
        } else {
            let t = self.pending.remove(i);
            let committed = t.target_path == self.state.path;
            if committed {
                self.state.view = ViewState::Routed {
                    route_id: t.route_id,
                    content: t.content,
                    nav: t.nav,
                };
            }
            match t.retained {
                Some(bundle) => {
                    proof {
                        assert(crate::model::task_inv(pre, pre.pending[i as int]));
                        lemma_flat_is_under(
                            self.arena@.parents,
                            self.outer_owner as int,
                            bundle.owner as int,
                        );
                    }
                    self.arena.release(bundle.owner);
                },
                None => {},
            }
            self.acks = self.acks + 1;
            self.is_routing = false;
            proof {
                lemma_poll_preserves_inv(pre, i as int);
                assert(self@.pending =~~= poll_step(pre, i as int).pending);
                assert(self@.arena.alive =~= poll_step(pre, i as int).arena.alive);
                assert(self@ =~~= poll_step(pre, i as int));
            }
            if committed {
                PollOutcome::Committed
            } else {
                PollOutcome::Discarded
            }
        }
    }

    /// How many resolutions are still in flight.
    pub fn pending_len(&self) -> (n: usize)
        ensures
            n as int == self@.pending.len(),
    {
        self.pending.len()
    }
}

} // verus!
