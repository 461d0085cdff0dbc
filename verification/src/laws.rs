//! The router's guarantees, stated and proved over the model.
//!
//! Navigations and executor polls are the two operations; `run` plays an
//! arbitrary sequence of them. The laws: a same-path navigation changes only
//! the url signal's value; a same-pattern navigation updates signal values in
//! place without touching owner or view; a full transition allocates a fresh
//! owner and fresh signals and drops the outgoing owner exactly once; over any
//! operation sequence at most one view is ever committed per navigation; and a
//! superseded resolution is never committed, while the latest navigation's
//! resolution is.

use vstd::prelude::*;
use crate::location::UrlModel;
use crate::matching::MatchModel;
use crate::model::inv;
use crate::model::lemma_poll_preserves_inv;
use crate::model::lemma_rebuild_preserves_inv;
use crate::model::match_ok;
use crate::model::params_step;
use crate::model::poll_step;
use crate::model::rebuild_model;
use crate::model::same_path_step;
use crate::model::task_inv;
use crate::model::transition_step;
use crate::model::view_nav;
use crate::model::RouterModel;
use crate::model::ViewModel;

verus! {

/// One operation against a mounted router.
#[verifier::ext_equal]
pub ghost enum RouterOp {
    /// A navigation: the location changed to `url` and the route table
    /// produced `m` for its path.
    Rebuild { url: UrlModel, m: Option<MatchModel> },
    /// One executor poll of pending resolution `i`.
    Poll { i: int },
}

/// The operation makes sense against this state.
pub open spec fn op_ok(r: RouterModel, op: RouterOp) -> bool {
    match op {
        RouterOp::Rebuild { url, m } => match_ok(m),
        RouterOp::Poll { i } => 0 <= i < r.pending.len(),
    }
}

/// The state after one operation.
pub open spec fn step(r: RouterModel, op: RouterOp) -> RouterModel {
    match op {
        RouterOp::Rebuild { url, m } => rebuild_model(r, url, m),
        RouterOp::Poll { i } => poll_step(r, i),
    }
}

/// Every operation in the sequence makes sense when its turn comes.
pub open spec fn ops_ok(r: RouterModel, ops: Seq<RouterOp>) -> bool
    decreases ops.len(),
{
    if ops.len() == 0 {
        true
    } else {
        op_ok(r, ops[0]) && ops_ok(step(r, ops[0]), ops.subrange(1, ops.len() as int))
    }
}

/// The state after a sequence of operations.
pub open spec fn run(r: RouterModel, ops: Seq<RouterOp>) -> RouterModel
    decreases ops.len(),
{
    if ops.len() == 0 {
        r
    } else {
        run(step(r, ops[0]), ops.subrange(1, ops.len() as int))
    }
}

/// The invariant holds along any operation sequence.
pub proof fn lemma_step_preserves_inv(r: RouterModel, op: RouterOp)
    requires
        inv(r),
        op_ok(r, op),
    ensures
        inv(step(r, op)),
{
    match op {
        RouterOp::Rebuild { url, m } => lemma_rebuild_preserves_inv(r, url, m),
        RouterOp::Poll { i } => lemma_poll_preserves_inv(r, i),
    }
}

/// Navigation counters never move backwards.
pub proof fn lemma_step_navs_monotone(r: RouterModel, op: RouterOp)
    requires
        op_ok(r, op),
    ensures
        step(r, op).navs >= r.navs,
        step(r, op).path == r.path || op is Rebuild,
{
}

/// This operation commits a view on behalf of navigation `n`: either a
/// navigation whose view is ready synchronously (the fallback, or a match
/// resolving on its first poll), or the completing poll of a resolution whose
/// target path is still the current path.
pub open spec fn is_commit(r: RouterModel, op: RouterOp, n: int) -> bool {
    match op {
        RouterOp::Rebuild { url, m } => {
            &&& url.path != r.path
            &&& !(m is Some && r.route_id == Some(m->0.id))
            &&& match m {
                Some(mm) => mm.delay == 0,
                None => true,
            }
            &&& n == r.navs
        },
        RouterOp::Poll { i } => {
            &&& 0 <= i < r.pending.len()
            &&& r.pending[i].remaining <= 1
            &&& r.pending[i].target_path == r.path
            &&& r.pending[i].nav == n
        },
    }
}

/// How many operations of the sequence commit a view for navigation `n`.
pub open spec fn commit_count(r: RouterModel, ops: Seq<RouterOp>, n: int) -> int
    decreases ops.len(),
{
    if ops.len() == 0 {
        0int
    } else {
        (if is_commit(r, ops[0], n) {
            1int
        } else {
            0int
        }) + commit_count(step(r, ops[0]), ops.subrange(1, ops.len() as int), n)
    }
}

/// Navigation `n` still has a resolution in flight.
pub open spec fn nav_live(r: RouterModel, n: int) -> bool {
    exists|i: int| 0 <= i < r.pending.len() && (#[trigger] r.pending[i]).nav == n
}

/// How many commits navigation `n` can still receive: one while its
/// resolution is in flight or while it has not happened yet, none otherwise.
pub open spec fn commit_bound(r: RouterModel, n: int) -> int {
    if nav_live(r, n) || n >= r.navs {
        1int
    } else {
        0int
    }
}

/// At most one view is ever committed per navigation, over every sequence of
/// navigations and polls. A navigation's commit is either synchronous (in its
/// own operation) or performed by the single completing poll of its queued
/// resolution; afterwards nothing can commit for it again.
pub proof fn lemma_at_most_one_commit_per_nav(r: RouterModel, ops: Seq<RouterOp>, n: int)
    requires
        inv(r),
        ops_ok(r, ops),
    ensures
        commit_count(r, ops, n) <= commit_bound(r, n),
        commit_count(r, ops, n) <= 1,
    decreases ops.len(),
{
    if ops.len() == 0 {
    } else {
        let op = ops[0];
        let rest = ops.subrange(1, ops.len() as int);
        let r2 = step(r, op);
        lemma_step_preserves_inv(r, op);
        lemma_at_most_one_commit_per_nav(r2, rest, n);
        if is_commit(r, op, n) {
            // after the commit, navigation n is settled: nothing for it is in
            // flight and its number is spent
            assert(!nav_live(r2, n) && n < r2.navs) by {
                match op {
                    RouterOp::Rebuild { url, m } => {
                        assert(n == r.navs);
                        assert forall|i: int|
                            0 <= i < r2.pending.len() implies (#[trigger] r2.pending[i]).nav
                            != n by {
                            assert(r2.pending[i] == r.pending[i]);
                            assert(task_inv(r, r.pending[i]));
                        }
                    },
                    RouterOp::Poll { i } => {
                        assert(task_inv(r, r.pending[i]));
                        assert forall|k: int|
                            0 <= k < r2.pending.len() implies (#[trigger] r2.pending[k]).nav
                            != n by {
                            let k0 = if k < i {
                                k
                            } else {
                                k + 1
                            };
                            assert(r2.pending[k] == r.pending[k0]);
                            if k0 < i {
                                assert(r.pending[k0].nav != r.pending[i].nav);
                            } else {
                                assert(r.pending[i].nav != r.pending[k0].nav);
                            }
                        }
                    },
                }
            }
            assert(commit_bound(r2, n) == 0);
            assert(commit_bound(r, n) == 1) by {
                match op {
                    RouterOp::Rebuild { url, m } => {},
                    RouterOp::Poll { i } => {
                        assert(0 <= i < r.pending.len() && r.pending[i].nav == n);
                    },
                }
            }
        } else {
            // no commit here; the remaining allowance never grows
            assert(commit_bound(r2, n) <= commit_bound(r, n)) by {
                if nav_live(r2, n) && n < r2.navs {
                    let w = choose|i: int|
                        0 <= i < r2.pending.len() && (#[trigger] r2.pending[i]).nav == n;
                    match op {
                        RouterOp::Rebuild { url, m } => {
                            if w < r.pending.len() {
                                assert(r2.pending[w] == r.pending[w]);
                                assert(nav_live(r, n));
                            } else {
                                assert(r2.pending[w].nav == r.navs);
                                assert(n >= r.navs);
                            }
                        },
                        RouterOp::Poll { i } => {
                            let t = r.pending[i];
                            if t.remaining > 1 {
                                if w == i {
                                    assert(r.pending[i].nav == n);
                                } else {
                                    assert(r2.pending[w] == r.pending[w]);
                                }
                                assert(nav_live(r, n));
                            } else {
                                let w0 = if w < i {
                                    w
                                } else {
                                    w + 1
                                };
                                assert(r2.pending[w] == r.pending[w0]);
                                assert(nav_live(r, n));
                            }
                        },
                    }
                } else if n >= r2.navs {
                    lemma_step_navs_monotone(r, op);
                }
            }
        }
    }
}

/// This poll is a completing resolution whose target path is still current:
/// it will commit.
pub open spec fn is_commit_poll(r: RouterModel, op: RouterOp) -> bool {
    match op {
        RouterOp::Rebuild { url, m } => false,
        RouterOp::Poll { i } => {
            &&& 0 <= i < r.pending.len()
            &&& r.pending[i].remaining <= 1
            &&& r.pending[i].target_path == r.path
        },
    }
}

/// The view a committing poll installs.
pub open spec fn commit_view(r: RouterModel, op: RouterOp) -> ViewModel {
    let t = r.pending[op->i];
    ViewModel::Routed { route_id: t.route_id, content: t.content, nav: t.nav }
}

/// The views committed along a sequence of operations, in order.
pub open spec fn committed_views(r: RouterModel, ops: Seq<RouterOp>) -> Seq<ViewModel>
    decreases ops.len(),
{
    if ops.len() == 0 {
        Seq::empty()
    } else {
        let head: Seq<ViewModel> = if is_commit_poll(r, ops[0]) {
            seq![commit_view(r, ops[0])]
        } else {
            Seq::empty()
        };
        head + committed_views(step(r, ops[0]), ops.subrange(1, ops.len() as int))
    }
}

/// Last write wins, by completion order: however the executor interleaves its
/// polls, the retained view ends as the view of the last resolution that
/// completed while its target path was still current — task start order plays
/// no part — and stays put if nothing committed.
pub proof fn lemma_last_completed_commit_wins(r: RouterModel, polls: Seq<RouterOp>)
    requires
        inv(r),
        ops_ok(r, polls),
        forall|j: int| 0 <= j < polls.len() ==> (#[trigger] polls[j]) is Poll,
    ensures
        run(r, polls).view == if committed_views(r, polls).len() == 0 {
            r.view
        } else {
            committed_views(r, polls).last()
        },
    decreases polls.len(),
{
    if polls.len() == 0 {
    } else {
        let op = polls[0];
        let rest = polls.subrange(1, polls.len() as int);
        let r2 = step(r, op);
        lemma_step_preserves_inv(r, op);
        assert forall|j: int| 0 <= j < rest.len() implies (#[trigger] rest[j]) is Poll by {
            assert(rest[j] == polls[j + 1]);
        }
        lemma_last_completed_commit_wins(r2, rest);
        if is_commit_poll(r, op) {
            assert(r2.view == commit_view(r, op));
            assert(committed_views(r, polls) == seq![commit_view(r, op)] + committed_views(
                r2,
                rest,
            ));
            if committed_views(r2, rest).len() == 0 {
                assert(committed_views(r, polls) =~= seq![commit_view(r, op)]);
            } else {
                assert(committed_views(r, polls).last() == committed_views(r2, rest).last());
            }
        } else {
            assert(r2.view == r.view);
            assert(committed_views(r, polls) =~= committed_views(r2, rest));
        }
    }
}

/// A superseded resolution never commits: once the current path has moved on
/// and no further navigation happens, polling can never install the stale
/// resolution's view.
pub proof fn lemma_superseded_never_commits(r: RouterModel, nk: int, polls: Seq<RouterOp>)
    requires
        inv(r),
        ops_ok(r, polls),
        forall|j: int| 0 <= j < polls.len() ==> (#[trigger] polls[j]) is Poll,
        // every resolution for navigation nk targets a path that is no longer
        // current, and its view is not the one showing
        forall|i: int|
            0 <= i < r.pending.len() && (#[trigger] r.pending[i]).nav == nk
                ==> r.pending[i].target_path != r.path,
        !(r.view is Routed && view_nav(r.view) == nk),
    ensures
        !(run(r, polls).view is Routed && view_nav(run(r, polls).view) == nk),
    decreases polls.len(),
{
    if polls.len() == 0 {
    } else {
        let op = polls[0];
        let rest = polls.subrange(1, polls.len() as int);
        let r2 = step(r, op);
        lemma_step_preserves_inv(r, op);
        let i = op->i;
        let t = r.pending[i];
        assert(r2.path == r.path);
        assert(!(r2.view is Routed && view_nav(r2.view) == nk)) by {
            if t.remaining <= 1 && t.target_path == r.path {
                assert(t.nav != nk);
            }
        }
        assert forall|k: int|
            0 <= k < r2.pending.len() && (#[trigger] r2.pending[k]).nav == nk
                implies r2.pending[k].target_path != r2.path by {
            if t.remaining > 1 {
                if k == i {
                    assert(r2.pending[k].target_path == t.target_path);
                    assert(r2.pending[k].nav == t.nav);
                } else {
                    assert(r2.pending[k] == r.pending[k]);
                }
            } else {
                let k0 = if k < i {
                    k
                } else {
                    k + 1
                };
                assert(r2.pending[k] == r.pending[k0]);
            }
        }
        assert forall|j: int| 0 <= j < rest.len() implies (#[trigger] rest[j]) is Poll by {
            assert(rest[j] == polls[j + 1]);
        }
        lemma_superseded_never_commits(r2, nk, rest);
    }
}

/// While no pending resolution targets the current path, polling never
/// changes the view.
pub proof fn lemma_view_stable_without_current_task(r: RouterModel, polls: Seq<RouterOp>)
    requires
        inv(r),
        ops_ok(r, polls),
        forall|j: int| 0 <= j < polls.len() ==> (#[trigger] polls[j]) is Poll,
        forall|i: int|
            0 <= i < r.pending.len() ==> (#[trigger] r.pending[i]).target_path != r.path,
    ensures
        run(r, polls).view == r.view,
    decreases polls.len(),
{
    if polls.len() == 0 {
    } else {
        let op = polls[0];
        let rest = polls.subrange(1, polls.len() as int);
        let r2 = step(r, op);
        lemma_step_preserves_inv(r, op);
        let i = op->i;
        let t = r.pending[i];
        assert(r2.view == r.view);
        assert(r2.path == r.path);
        assert forall|k: int|
            0 <= k < r2.pending.len() implies (#[trigger] r2.pending[k]).target_path
            != r2.path by {
            if t.remaining > 1 {
                if k != i {
                    assert(r2.pending[k] == r.pending[k]);
                }
            } else {
                let k0 = if k < i {
                    k
                } else {
                    k + 1
                };
                assert(r2.pending[k] == r.pending[k0]);
            }
        }
        assert forall|j: int| 0 <= j < rest.len() implies (#[trigger] rest[j]) is Poll by {
            assert(rest[j] == polls[j + 1]);
        }
        lemma_view_stable_without_current_task(r2, rest);
    }
}

/// Once every resolution that targets the current path announces the same
/// view, draining the queue commits exactly that view: "last write wins" by
/// path comparison at commit time.
pub proof fn lemma_current_resolution_commits(
    r: RouterModel,
    polls: Seq<RouterOp>,
    ib: int,
    cb: Seq<char>,
    nb: int,
)
    requires
        inv(r),
        ops_ok(r, polls),
        forall|j: int| 0 <= j < polls.len() ==> (#[trigger] polls[j]) is Poll,
        forall|i: int|
            0 <= i < r.pending.len() && (#[trigger] r.pending[i]).target_path == r.path
                ==> r.pending[i].route_id == ib && r.pending[i].content == cb
                && r.pending[i].nav == nb,
        r.view == (ViewModel::Routed { route_id: ib, content: cb, nav: nb }) || exists|i: int|
            0 <= i < r.pending.len() && (#[trigger] r.pending[i]).target_path == r.path,
        run(r, polls).pending.len() == 0,
    ensures
        run(r, polls).view == (ViewModel::Routed { route_id: ib, content: cb, nav: nb }),
    decreases polls.len(),
{
    if polls.len() == 0 {
        assert(r.view == (ViewModel::Routed { route_id: ib, content: cb, nav: nb }));
    } else {
        let op = polls[0];
        let rest = polls.subrange(1, polls.len() as int);
        let r2 = step(r, op);
        lemma_step_preserves_inv(r, op);
        let i = op->i;
        let t = r.pending[i];
        assert(r2.path == r.path);
        assert forall|k: int|
            0 <= k < r2.pending.len() && (#[trigger] r2.pending[k]).target_path == r2.path
                implies r2.pending[k].route_id == ib && r2.pending[k].content == cb
                && r2.pending[k].nav == nb by {
            if t.remaining > 1 {
                if k == i {
                    assert(r2.pending[k].target_path == t.target_path);
                } else {
                    assert(r2.pending[k] == r.pending[k]);
                }
            } else {
                let k0 = if k < i {
                    k
                } else {
                    k + 1
                };
                assert(r2.pending[k] == r.pending[k0]);
            }
        }
        assert(r2.view == (ViewModel::Routed { route_id: ib, content: cb, nav: nb })
            || exists|k: int|
            0 <= k < r2.pending.len() && (#[trigger] r2.pending[k]).target_path == r2.path) by {
            if t.remaining <= 1 && t.target_path == r.path {
                // this poll commits the current-path view
                assert(r2.view == (ViewModel::Routed { route_id: ib, content: cb, nav: nb }));
            } else if r.view == (ViewModel::Routed { route_id: ib, content: cb, nav: nb }) {
                assert(r2.view == r.view);
            } else {
                let w = choose|k: int|
                    0 <= k < r.pending.len() && (#[trigger] r.pending[k]).target_path == r.path;
                if t.remaining > 1 {
                    if w == i {
                        assert(r2.pending[w].target_path == t.target_path);
                    } else {
                        assert(r2.pending[w] == r.pending[w]);
                    }
                } else {
                    // the completing task was stale, so it is not the witness
                    assert(w != i);
                    let w2 = if w < i {
                        w
                    } else {
                        w - 1
                    };
                    assert(r2.pending[w2] == r.pending[w]);
                }
            }
        }
        assert forall|j: int| 0 <= j < rest.len() implies (#[trigger] rest[j]) is Poll by {
            assert(rest[j] == polls[j + 1]);
        }
        assert(run(r2, rest).pending.len() == 0);
        lemma_current_resolution_commits(r2, rest, ib, cb, nb);
    }
}

/// Racing navigations: launch navigation `a` (whose resolution is slow), then
/// navigation `b` to a different pattern before `a` resolves. Whatever order
/// the executor then polls in, `a`'s resolved view never appears; and once the
/// queue drains, the view is `b`'s — even though `a`'s task finished after
/// `b`'s navigation.
pub proof fn lemma_supersede_race(
    r0: RouterModel,
    url_a: UrlModel,
    ma: MatchModel,
    url_b: UrlModel,
    mb: MatchModel,
    polls: Seq<RouterOp>,
)
    requires
        inv(r0),
        // nothing else is in flight when the race starts
        r0.pending.len() == 0,
        // navigation a: a full transition whose resolution does not complete
        // on its first poll
        url_a.path != r0.path,
        r0.route_id != Some(ma.id),
        ma.delay >= 1,
        // navigation b, before a resolves: another pattern, another path
        url_b.path != url_a.path,
        mb.id != ma.id,
        mb.delay >= 0,
        // then the executor runs: polls only
        ops_ok(rebuild_model(rebuild_model(r0, url_a, Some(ma)), url_b, Some(mb)), polls),
        forall|j: int| 0 <= j < polls.len() ==> (#[trigger] polls[j]) is Poll,
    ensures
        ({
            let r1 = rebuild_model(r0, url_a, Some(ma));
            let r2 = rebuild_model(r1, url_b, Some(mb));
            let rf = run(r2, polls);
            // a's view never appears
            &&& !(rf.view is Routed && view_nav(rf.view) == r0.navs)
            // once every resolution completes, b's view is the one committed
            &&& (rf.pending.len() == 0 ==> rf.view == (ViewModel::Routed {
                route_id: mb.id,
                content: mb.content,
                nav: r0.navs + 1,
            }))
        }),
{
    let r1 = rebuild_model(r0, url_a, Some(ma));
    let r2 = rebuild_model(r1, url_b, Some(mb));
    let rf = run(r2, polls);
    lemma_rebuild_preserves_inv(r0, url_a, Some(ma));
    lemma_rebuild_preserves_inv(r1, url_b, Some(mb));
    let na = r0.navs;
    let nb = r1.navs;
    assert(nb == na + 1);
    assert(r1.path == url_a.path);
    assert(r1.route_id == Some(ma.id));
    assert(r1.pending.last().nav == na);
    assert(r2.path == url_b.path);
    // navigation b is a full transition over r1
    assert(r2.navs == na + 2);
    // a's pending task survives into r2, with a stale target
    assert forall|i: int|
        0 <= i < r2.pending.len() && (#[trigger] r2.pending[i]).nav == na
            implies r2.pending[i].target_path != r2.path by {
        if i < r1.pending.len() {
            assert(r2.pending[i] == r1.pending[i]);
            if i < r0.pending.len() {
                assert(r1.pending[i] == r0.pending[i]);
                assert(task_inv(r0, r0.pending[i]));
            } else {
                assert(r1.pending[i].target_path == url_a.path);
            }
        } else {
            assert(r2.pending[i].nav == r1.navs);
        }
    }
    assert(!(r2.view is Routed && view_nav(r2.view) == na)) by {
        if mb.delay == 0 {
            assert(view_nav(r2.view) == nb);
        } else {
            assert(r2.view is Placeholder);
        }
    }
    lemma_superseded_never_commits(r2, na, polls);
    if rf.pending.len() == 0 {
        assert forall|i: int|
            0 <= i < r2.pending.len() && (#[trigger] r2.pending[i]).target_path == r2.path
                implies r2.pending[i].route_id == mb.id && r2.pending[i].content == mb.content
                && r2.pending[i].nav == nb by {
            if i < r1.pending.len() {
                assert(r2.pending[i] == r1.pending[i]);
                if i < r0.pending.len() {
                    assert(r1.pending[i] == r0.pending[i]);
                    assert(task_inv(r0, r0.pending[i]));
                    assert(task_inv(r1, r1.pending[i]));
                    assert(task_inv(r2, r2.pending[i]));
                } else {
                    assert(r1.pending[i].target_path == url_a.path);
                }
            } else {
                assert(r2.pending[i].nav == nb);
            }
        }
        if mb.delay == 0 {
            assert(r2.view == (ViewModel::Routed {
                route_id: mb.id,
                content: mb.content,
                nav: nb,
            }));
        } else {
            assert(r2.pending.last().target_path == r2.path);
            assert(r2.pending.last().route_id == mb.id);
        }
        lemma_current_resolution_commits(r2, polls, mb.id, mb.content, nb);
    }
}

/// Only query or fragment changed: the url signal's value is refreshed under
/// its kept identity, the navigation is acknowledged, and nothing else — not
/// route id, owner, view, params, matched, arena, or the pending queue —
/// changes.
pub proof fn law_same_path_navigation(r: RouterModel, url: UrlModel, m: Option<MatchModel>)
    requires
        inv(r),
        url.path == r.path,
    ensures
        ({
            let r2 = rebuild_model(r, url, m);
            &&& r2 == same_path_step(r, url)
            &&& r2.route_id == r.route_id
            &&& r2.owner == r.owner
            &&& r2.view == r.view
            &&& r2.arena == r.arena
            &&& r2.url.id == r.url.id
            &&& r2.url.value == url
            &&& r2.params == r.params
            &&& r2.matched == r.matched
            &&& r2.pending == r.pending
            &&& r2.acks == r.acks + 1
        }),
{
}

/// Same pattern, new parameters: params, matched and url signal values are
/// updated under their kept identities; owner, view, arena and the pending
/// queue are untouched.
pub proof fn law_same_pattern_navigation(r: RouterModel, url: UrlModel, m: MatchModel)
    requires
        inv(r),
        url.path != r.path,
        r.route_id == Some(m.id),
    ensures
        ({
            let r2 = rebuild_model(r, url, Some(m));
            &&& r2 == params_step(r, url, m)
            &&& r2.route_id == r.route_id
            &&& r2.owner == r.owner
            &&& r2.view == r.view
            &&& r2.arena == r.arena
            &&& r2.url.id == r.url.id && r2.url.value == url
            &&& r2.params.id == r.params.id && r2.params.value == m.params
            &&& r2.matched.id == r.matched.id && r2.matched.value == m.matched
            &&& r2.path == url.path
            &&& r2.pending == r.pending
            &&& r2.acks == r.acks + 1
        }),
{
}

/// A full transition always allocates a fresh owner and fresh signals and
/// produces a new view. The outgoing owner is dropped exactly once: at the
/// transition itself when the new view commits synchronously, or kept alive,
/// retained by the queued resolution.
pub proof fn law_transition_allocates(r: RouterModel, url: UrlModel, m: Option<MatchModel>)
    requires
        inv(r),
        match_ok(m),
        url.path != r.path,
        !(m is Some && r.route_id == Some(m->0.id)),
    ensures
        ({
            let r2 = rebuild_model(r, url, m);
            &&& r2 == transition_step(r, url, m)
            &&& r2.owner != r.owner
            &&& r2.owner == r.arena.parents.len()
            &&& r2.arena.alive[r2.owner]
            &&& r2.url.id != r.url.id && r2.params.id != r.params.id && r2.matched.id
                != r.matched.id
            &&& view_nav(r2.view) == r.navs
            &&& match m {
                Some(mm) => if mm.delay == 0 {
                    // synchronous commit: the old owner is dropped at once
                    &&& !r2.arena.alive[r.owner]
                    &&& r2.pending == r.pending
                } else {
                    // the old owner stays alive, retained by the new task
                    &&& r2.arena.alive[r.owner]
                    &&& r2.pending.len() == r.pending.len() + 1
                    &&& r2.pending.last().retained == Some(
                        crate::model::retained_of(r),
                    )
                    &&& r2.pending.last().target_path == url.path
                },
                None => {
                    &&& !r2.arena.alive[r.owner]
                    &&& r2.pending == r.pending
                },
            }
        }),
{
    assert(r.owner < r.arena.parents.len());
}

/// When a queued resolution completes, the owner it retained is dropped then
/// and only then — it was alive up to that point — and the resolved view is
/// committed exactly when its target path is still current.
pub proof fn law_completion_drops_retained_once(r: RouterModel, i: int)
    requires
        inv(r),
        0 <= i < r.pending.len(),
        r.pending[i].remaining <= 1,
    ensures
        ({
            let r2 = poll_step(r, i);
            let t = r.pending[i];
            &&& match t.retained {
                Some(ret) => r.arena.alive[ret.owner] && !r2.arena.alive[ret.owner],
                None => r2.arena.alive == r.arena.alive,
            }
            &&& r2.view == if t.target_path == r.path {
                ViewModel::Routed { route_id: t.route_id, content: t.content, nav: t.nav }
            } else {
                r.view
            }
            &&& r2.pending == r.pending.remove(i)
            &&& r2.acks == r.acks + 1
        }),
{
    assert(task_inv(r, r.pending[i]));
}

} // verus!
