//! The mathematical model of the router: its retained state, the transition
//! taken on every navigation, and the transition taken when a pending view
//! resolution is polled. The executable router is proved to follow these
//! transitions exactly; the router's guarantees are stated and proved over
//! them.

use vstd::prelude::*;
use crate::location::UrlModel;
use crate::matching::MatchModel;
use crate::owner::ArenaModel;
use crate::owner::CtxModel;
use crate::signal::SigModel;

verus! {

/// Context key under which the url signal's identity is injected.
pub const CTX_URL: u64 = 1;

/// Context key under which the params signal's identity is injected.
pub const CTX_PARAMS: u64 = 2;

/// Context key under which the matched-pattern signal's identity is injected.
pub const CTX_MATCHED: u64 = 3;

/// Mathematical value of a parameter map.
pub type ParamsModel = Seq<(Seq<char>, Seq<char>)>;

/// What the retained view currently is, and which navigation produced it.
#[verifier::ext_equal]
pub ghost enum ViewModel {
    /// The configured fallback, built because no route matched.
    Fallback { nav: int },
    /// A transient placeholder, installed while a resolution is in flight.
    Placeholder { nav: int },
    /// A resolved route view, committed.
    Routed { route_id: int, content: Seq<char>, nav: int },
}

/// The navigation that produced the current view.
pub open spec fn view_nav(v: ViewModel) -> int {
    match v {
        ViewModel::Fallback { nav } => nav,
        ViewModel::Placeholder { nav } => nav,
        ViewModel::Routed { route_id, content, nav } => nav,
    }
}

/// The outgoing owner and signals a full transition retains alive until its
/// resolution completes.
#[verifier::ext_equal]
pub ghost struct RetainedModel {
    pub owner: int,
    pub url: SigModel<UrlModel>,
    pub params: SigModel<ParamsModel>,
    pub matched: SigModel<Seq<char>>,
}

/// One in-flight view resolution, tagged with the path it resolves for.
#[verifier::ext_equal]
pub ghost struct TaskModel {
    /// The path current when this resolution started; the race referee
    /// compares against it at completion time.
    pub target_path: Seq<char>,
    /// Polls left until the resolution completes.
    pub remaining: int,
    pub route_id: int,
    pub content: Seq<char>,
    /// The navigation that started this resolution.
    pub nav: int,
    /// The owner allocated for the incoming view.
    pub new_owner: int,
    /// The outgoing owner and signals, dropped once the resolution completes.
    pub retained: Option<RetainedModel>,
}

/// The whole router: retained state, owner arena, and the pending queue.
#[verifier::ext_equal]
pub ghost struct RouterModel {
    /// Markup of the configured fallback view.
    pub fallback: Seq<char>,
    /// Handle of the caller-supplied outer owner; it outlives the router.
    pub outer: int,
    pub arena: ArenaModel,
    /// Last-seen path: the single current-path cell that referees races.
    pub path: Seq<char>,
    /// Pattern id of the committed match, none while the fallback shows.
    pub route_id: Option<int>,
    pub view: ViewModel,
    /// Owner of everything created while rendering the current view.
    pub owner: int,
    pub url: SigModel<UrlModel>,
    pub params: SigModel<ParamsModel>,
    pub matched: SigModel<Seq<char>>,
    pub pending: Seq<TaskModel>,
    pub next_sig: int,
    /// Navigations handled so far; also the id given to the next navigation.
    pub navs: int,
    /// Navigations acknowledged as ready to complete.
    pub acks: int,
    pub is_routing: bool,
}

/// A navigation that changes only query/fragment: refresh the url signal,
/// acknowledge, touch nothing else.
pub open spec fn same_path_step(r: RouterModel, url: UrlModel) -> RouterModel {
    RouterModel {
        url: SigModel { id: r.url.id, value: url },
        navs: r.navs + 1,
        acks: r.acks + 1,
        ..r
    }
}

/// A navigation within the same pattern: update the signal values in place;
/// owner and view untouched.
pub open spec fn params_step(r: RouterModel, url: UrlModel, m: MatchModel) -> RouterModel {
    RouterModel {
        path: url.path,
        url: SigModel { id: r.url.id, value: url },
        params: SigModel { id: r.params.id, value: m.params },
        matched: SigModel { id: r.matched.id, value: m.matched },
        navs: r.navs + 1,
        acks: r.acks + 1,
        ..r
    }
}

/// One owner handle released (the router's owners never have children).
pub open spec fn drop_owner(alive: Seq<bool>, o: int) -> Seq<bool> {
    alive.update(o, false)
}

/// The arena after a full transition allocated a child of the outer owner and
/// injected the three fresh signal identities under it.
pub open spec fn transition_arena(r: RouterModel) -> ArenaModel {
    let new_owner = r.arena.parents.len() as int;
    ArenaModel {
        parents: r.arena.parents.push(Some(r.outer)),
        alive: r.arena.alive.push(true),
        ctx: r.arena.ctx.push(CtxModel { owner: new_owner, key: CTX_URL, value: r.next_sig }).push(
            CtxModel { owner: new_owner, key: CTX_PARAMS, value: r.next_sig + 1 },
        ).push(CtxModel { owner: new_owner, key: CTX_MATCHED, value: r.next_sig + 2 }),
    }
}

/// The outgoing owner and signals of `r`, as retained by a full transition.
pub open spec fn retained_of(r: RouterModel) -> RetainedModel {
    RetainedModel { owner: r.owner, url: r.url, params: r.params, matched: r.matched }
}

/// A navigation to a different pattern (or into/out of "no match"): allocate
/// a fresh owner and fresh signals, then build the fallback synchronously,
/// commit an immediately-resolving view synchronously, or install a
/// placeholder and queue the resolution.
pub open spec fn transition_step(r: RouterModel, url: UrlModel, m: Option<MatchModel>) -> RouterModel {
    let nav = r.navs;
    let new_owner = r.arena.parents.len() as int;
    let arena1 = transition_arena(r);
    let base = RouterModel {
        path: url.path,
        route_id: match m {
            Some(mm) => Some(mm.id),
            None => None,
        },
        owner: new_owner,
        url: SigModel { id: r.next_sig, value: url },
        params: SigModel {
            id: r.next_sig + 1,
            value: match m {
                Some(mm) => mm.params,
                None => Seq::empty(),
            },
        },
        matched: SigModel {
            id: r.next_sig + 2,
            value: match m {
                Some(mm) => mm.matched,
                None => Seq::empty(),
            },
        },
        arena: arena1,
        next_sig: r.next_sig + 3,
        navs: r.navs + 1,
        ..r
    };
    match m {
        None => RouterModel {
            view: ViewModel::Fallback { nav },
            arena: ArenaModel { alive: drop_owner(arena1.alive, r.owner), ..arena1 },
            acks: r.acks + 1,
            ..base
        },
        Some(mm) => if mm.delay == 0 {
            RouterModel {
                view: ViewModel::Routed { route_id: mm.id, content: mm.content, nav },
                arena: ArenaModel { alive: drop_owner(arena1.alive, r.owner), ..arena1 },
                acks: r.acks + 1,
                ..base
            }
        } else {
            RouterModel {
                view: ViewModel::Placeholder { nav },
                pending: r.pending.push(
                    TaskModel {
                        target_path: url.path,
                        remaining: mm.delay,
                        route_id: mm.id,
                        content: mm.content,
                        nav,
                        new_owner,
                        retained: Some(retained_of(r)),
                    },
                ),
                is_routing: true,
                ..base
            }
        },
    }
}

/// The update algorithm, one navigation: path-equality no-op, params-only
/// update, or full transition. Both-unmatched counts as a full transition (a
/// fallback refresh), not a params-only update.
pub open spec fn rebuild_model(r: RouterModel, url: UrlModel, m: Option<MatchModel>) -> RouterModel {
    if url.path == r.path {
        same_path_step(r, url)
    } else if m is Some && r.route_id == Some(m->0.id) {
        params_step(r, url, m->0)
    } else {
        transition_step(r, url, m)
    }
}

/// One executor poll of pending resolution `i`: count down, or complete.
/// Completion commits the resolved view only if its target path still equals
/// the current path; either way the retained owner is dropped, the entry
/// leaves the queue, and the navigation is acknowledged.
pub open spec fn poll_step(r: RouterModel, i: int) -> RouterModel
    recommends
        0 <= i < r.pending.len(),
{
    let t = r.pending[i];
    if t.remaining > 1 {
        RouterModel {
            pending: r.pending.update(i, TaskModel { remaining: t.remaining - 1, ..t }),
            ..r
        }
    } else {
        RouterModel {
            view: if t.target_path == r.path {
                ViewModel::Routed { route_id: t.route_id, content: t.content, nav: t.nav }
            } else {
                r.view
            },
            arena: ArenaModel {
                alive: match t.retained {
                    Some(ret) => drop_owner(r.arena.alive, ret.owner),
                    None => r.arena.alive,
                },
                ..r.arena
            },
            pending: r.pending.remove(i),
            acks: r.acks + 1,
            is_routing: false,
            ..r
        }
    }
}

/// The state a freshly initialised router holds: a two-node arena (outer
/// owner and the first view's owner), the three signals injected under the
/// view owner, and a view chosen by the first match. With `awaited` the
/// resolution was awaited to completion, however many polls it needed;
/// without it a slow resolution leaves a placeholder and one queued task.
pub open spec fn built_model(
    fallback: Seq<char>,
    url: UrlModel,
    m: Option<MatchModel>,
    awaited: bool,
) -> RouterModel {
    let arena0 = ArenaModel {
        parents: seq![None, Some(0int)],
        alive: seq![true, true],
        ctx: seq![
            CtxModel { owner: 1, key: CTX_URL, value: 0 },
            CtxModel { owner: 1, key: CTX_PARAMS, value: 1 },
            CtxModel { owner: 1, key: CTX_MATCHED, value: 2 },
        ],
    };
    let base = RouterModel {
        fallback,
        outer: 0,
        arena: arena0,
        path: url.path,
        route_id: match m {
            Some(mm) => Some(mm.id),
            None => None,
        },
        view: ViewModel::Fallback { nav: 0 },
        owner: 1,
        url: SigModel { id: 0, value: url },
        params: SigModel {
            id: 1,
            value: match m {
                Some(mm) => mm.params,
                None => Seq::empty(),
            },
        },
        matched: SigModel {
            id: 2,
            value: match m {
                Some(mm) => mm.matched,
                None => Seq::empty(),
            },
        },
        pending: Seq::empty(),
        next_sig: 3,
        navs: 1,
        acks: 1,
        is_routing: false,
    };
    match m {
        None => base,
        Some(mm) => if mm.delay == 0 || awaited {
            RouterModel {
                view: ViewModel::Routed { route_id: mm.id, content: mm.content, nav: 0 },
                ..base
            }
        } else {
            RouterModel {
                view: ViewModel::Placeholder { nav: 0 },
                pending: seq![
                    TaskModel {
                        target_path: url.path,
                        remaining: mm.delay,
                        route_id: mm.id,
                        content: mm.content,
                        nav: 0,
                        new_owner: 1,
                        retained: None,
                    },
                ],
                acks: 0,
                is_routing: true,
                ..base
            }
        },
    }
}

/// A freshly initialised router satisfies the invariant.
pub proof fn lemma_built_inv(
    fallback: Seq<char>,
    url: UrlModel,
    m: Option<MatchModel>,
    awaited: bool,
)
    requires
        match_ok(m),
    ensures
        inv(built_model(fallback, url, m, awaited)),
{
    let r = built_model(fallback, url, m, awaited);
    assert(r.arena.parents.len() == 2);
    assert(r.arena.alive.len() == 2);
    assert(r.arena.parents[0] is None);
    assert(r.arena.parents[1] == Some(0int));
    assert(r.arena.ctx.len() == 3);
    assert(r.arena.ctx[0].owner == 1);
    assert(r.arena.ctx[1].owner == 1);
    assert(r.arena.ctx[2].owner == 1);
    assert(r.arena.alive[0]);
    assert(r.arena.alive[1]);
    if r.pending.len() > 0 {
        assert(r.pending.len() == 1);
        assert(task_inv(r, r.pending[0]));
    }
}

/// Everything a task must satisfy inside a well-formed router.
pub open spec fn task_inv(r: RouterModel, t: TaskModel) -> bool {
    &&& 1 <= t.remaining
    &&& 0 <= t.nav < r.navs
    &&& 0 <= t.new_owner < r.arena.parents.len()
    &&& t.new_owner != r.outer
    &&& match t.retained {
        Some(ret) => {
            &&& 0 <= ret.owner < r.arena.parents.len()
            &&& ret.owner != r.outer
            &&& ret.owner != r.owner
            &&& r.arena.alive[ret.owner]
        },
        None => true,
    }
}

/// The router's invariant: a flat, well-formed arena whose current and outer
/// owners are alive, distinct pending navigations with disjoint retained
/// owners, and navigation counters that bound every recorded navigation.
pub open spec fn inv(r: RouterModel) -> bool {
    &&& r.arena.wf()
    &&& 0 <= r.outer < r.arena.parents.len()
    &&& r.arena.parents[r.outer] is None
    &&& forall|k: int|
        0 <= k < r.arena.parents.len() && k != r.outer
            ==> #[trigger] r.arena.parents[k] == Some(r.outer)
    &&& 0 <= r.owner < r.arena.parents.len()
    &&& r.owner != r.outer
    &&& r.arena.alive[r.owner]
    &&& r.arena.alive[r.outer]
    &&& 0 <= r.url.id
    &&& 0 <= r.params.id
    &&& 0 <= r.matched.id
    &&& r.url.id < r.next_sig
    &&& r.params.id < r.next_sig
    &&& r.matched.id < r.next_sig
    &&& 0 <= r.navs
    &&& 0 <= r.acks
    &&& view_nav(r.view) < r.navs
    &&& forall|i: int| 0 <= i < r.pending.len() ==> task_inv(r, #[trigger] r.pending[i])
    &&& forall|i: int, j: int|
        0 <= i < j < r.pending.len() ==> (#[trigger] r.pending[i]).nav
            != (#[trigger] r.pending[j]).nav
    &&& forall|i: int, j: int|
        0 <= i < j < r.pending.len() && r.pending[i].retained is Some
            && r.pending[j].retained is Some ==> (#[trigger] r.pending[i]).retained->0.owner
            != (#[trigger] r.pending[j]).retained->0.owner
}

/// A match carries a meaningful poll count.
pub open spec fn match_ok(m: Option<MatchModel>) -> bool {
    match m {
        Some(mm) => 0 <= mm.delay,
        None => true,
    }
}

/// A navigation preserves the router's invariant.
pub proof fn lemma_rebuild_preserves_inv(r: RouterModel, url: UrlModel, m: Option<MatchModel>)
    requires
        inv(r),
        match_ok(m),
    ensures
        inv(rebuild_model(r, url, m)),
{
    let r2 = rebuild_model(r, url, m);
    if url.path == r.path {
        assert forall|i: int| 0 <= i < r2.pending.len() implies task_inv(
            r2,
            #[trigger] r2.pending[i],
        ) by {
            assert(task_inv(r, r.pending[i]));
        }
    } else if m is Some && r.route_id == Some(m->0.id) {
        assert forall|i: int| 0 <= i < r2.pending.len() implies task_inv(
            r2,
            #[trigger] r2.pending[i],
        ) by {
            assert(task_inv(r, r.pending[i]));
        }
    } else {
        let arena1 = transition_arena(r);
        let new_owner = r.arena.parents.len() as int;
        assert(arena1.wf()) by {
            assert forall|i: int|
                0 <= i < arena1.parents.len() && arena1.parents[i] is Some
                    implies 0 <= (#[trigger] arena1.parents[i])->0 < i by {
                if i < r.arena.parents.len() {
                    assert(arena1.parents[i] == r.arena.parents[i]);
                } else {
                    assert(arena1.parents[i] == Some(r.outer));
                }
            }
            assert forall|j: int|
                0 <= j < arena1.ctx.len() implies 0 <= (#[trigger] arena1.ctx[j]).owner
                    < arena1.parents.len() by {
                if j < r.arena.ctx.len() {
                    assert(arena1.ctx[j] == r.arena.ctx[j]);
                    assert(0 <= r.arena.ctx[j].owner < r.arena.parents.len());
                } else {
                    assert(arena1.ctx[j].owner == new_owner);
                }
            }
        }
        assert forall|k: int|
            0 <= k < r2.arena.parents.len() && k != r2.outer
                implies #[trigger] r2.arena.parents[k] == Some(r2.outer) by {
            if k < r.arena.parents.len() {
                assert(r2.arena.parents[k] == r.arena.parents[k]);
            } else {
                assert(r2.arena.parents[k] == Some(r.outer));
            }
        }
        assert forall|i: int| 0 <= i < r2.pending.len() implies task_inv(
            r2,
            #[trigger] r2.pending[i],
        ) by {
            let t = r2.pending[i];
            if i < r.pending.len() {
                assert(r2.pending[i] == r.pending[i]);
                assert(task_inv(r, r.pending[i]));
                match t.retained {
                    Some(ret) => {
                        assert(0 <= ret.owner < r.arena.parents.len());
                        assert(ret.owner != r.owner);
                        assert(ret.owner != new_owner);
                        assert(arena1.alive[ret.owner] == r.arena.alive[ret.owner]);
                        assert(r2.arena.alive[ret.owner]);
                    },
                    None => {},
                }
            } else {
                assert(i == r.pending.len());
                assert(t == TaskModel {
                    target_path: url.path,
                    remaining: m->0.delay,
                    route_id: m->0.id,
                    content: m->0.content,
                    nav: r.navs,
                    new_owner,
                    retained: Some(retained_of(r)),
                });
                assert(0 <= r.owner < r.arena.parents.len());
                assert(r2.arena.alive[r.owner] == r.arena.alive[r.owner]);
            }
        }
        assert forall|i: int, j: int|
            0 <= i < j < r2.pending.len() implies (#[trigger] r2.pending[i]).nav
                != (#[trigger] r2.pending[j]).nav by {
            if j < r.pending.len() {
                assert(r2.pending[i] == r.pending[i]);
                assert(r2.pending[j] == r.pending[j]);
            } else if i < r.pending.len() {
                assert(r2.pending[i] == r.pending[i]);
                assert(task_inv(r, r.pending[i]));
            }
        }
        assert forall|i: int, j: int|
            0 <= i < j < r2.pending.len() && r2.pending[i].retained is Some
                && r2.pending[j].retained is Some
                implies (#[trigger] r2.pending[i]).retained->0.owner
                != (#[trigger] r2.pending[j]).retained->0.owner by {
            if j < r.pending.len() {
                assert(r2.pending[i] == r.pending[i]);
                assert(r2.pending[j] == r.pending[j]);
            } else if i < r.pending.len() {
                assert(r2.pending[i] == r.pending[i]);
                assert(task_inv(r, r.pending[i]));
            }
        }
    }
}

/// An executor poll preserves the router's invariant.
pub proof fn lemma_poll_preserves_inv(r: RouterModel, i: int)
    requires
        inv(r),
        0 <= i < r.pending.len(),
    ensures
        inv(poll_step(r, i)),
{
    let r2 = poll_step(r, i);
    let t = r.pending[i];
    assert(task_inv(r, t));
    if t.remaining > 1 {
        assert forall|k: int| 0 <= k < r2.pending.len() implies task_inv(
            r2,
            #[trigger] r2.pending[k],
        ) by {
            assert(task_inv(r, r.pending[k]));
            if k != i {
                assert(r2.pending[k] == r.pending[k]);
            }
        }
        assert forall|k: int, l: int|
            0 <= k < l < r2.pending.len() implies (#[trigger] r2.pending[k]).nav
                != (#[trigger] r2.pending[l]).nav by {
            assert(r.pending[k].nav != r.pending[l].nav);
            assert(r2.pending[k].nav == r.pending[k].nav);
            assert(r2.pending[l].nav == r.pending[l].nav);
        }
        assert forall|k: int, l: int|
            0 <= k < l < r2.pending.len() && r2.pending[k].retained is Some
                && r2.pending[l].retained is Some
                implies (#[trigger] r2.pending[k]).retained->0.owner
                != (#[trigger] r2.pending[l]).retained->0.owner by {
            assert(r2.pending[k].retained == r.pending[k].retained);
            assert(r2.pending[l].retained == r.pending[l].retained);
        }
    } else {
        assert forall|k: int| 0 <= k < r2.pending.len() implies task_inv(
            r2,
            #[trigger] r2.pending[k],
        ) by {
            let k0 = if k < i { k } else { k + 1 };
            assert(r2.pending[k] == r.pending[k0]);
            assert(task_inv(r, r.pending[k0]));
            if r.pending[k0].retained is Some {
                lemma_retained_distinct(r, k0, i);
            }
        }
        assert forall|k: int, l: int|
            0 <= k < l < r2.pending.len() implies (#[trigger] r2.pending[k]).nav
                != (#[trigger] r2.pending[l]).nav by {
            let k0 = if k < i { k } else { k + 1 };
            let l0 = if l < i { l } else { l + 1 };
            assert(r2.pending[k] == r.pending[k0]);
            assert(r2.pending[l] == r.pending[l0]);
            assert(r.pending[k0].nav != r.pending[l0].nav);
        }
        assert forall|k: int, l: int|
            0 <= k < l < r2.pending.len() && r2.pending[k].retained is Some
                && r2.pending[l].retained is Some
                implies (#[trigger] r2.pending[k]).retained->0.owner
                != (#[trigger] r2.pending[l]).retained->0.owner by {
            let k0 = if k < i { k } else { k + 1 };
            let l0 = if l < i { l } else { l + 1 };
            assert(r2.pending[k] == r.pending[k0]);
            assert(r2.pending[l] == r.pending[l0]);
        }
    }
}

/// Two distinct pending tasks never retain the same owner, and neither
/// retains the current one; so dropping task `i`'s retained owner leaves
/// every other retained owner alive.
proof fn lemma_retained_distinct(r: RouterModel, k: int, i: int)
    requires
        inv(r),
        0 <= k < r.pending.len(),
        0 <= i < r.pending.len(),
        k != i,
        r.pending[k].retained is Some,
    ensures
        match r.pending[i].retained {
            Some(ret) => r.pending[k].retained->0.owner != ret.owner,
            None => true,
        },
{
    if r.pending[i].retained is Some {
        if k < i {
            assert(r.pending[k].retained->0.owner != r.pending[i].retained->0.owner);
        } else {
            assert(r.pending[i].retained->0.owner != r.pending[k].retained->0.owner);
        }
    }
}

} // verus!

