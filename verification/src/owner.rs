//! Hierarchical resource-lifetime scopes.
//!
//! Owners form an arena of nodes referenced by handle. A child owner owns
//! everything created while it is current; releasing a handle releases the
//! node and, transitively, every node under it. Ambient context is explicit
//! scoped key/value injection tied to an owner, resolved by walking up the
//! owner chain at read time; values are signal identities.

use vstd::prelude::*;
use vstd::pervasive::VecAdditionalExecFns;

verus! {

/// Mathematical value of a [`CtxEntry`].
#[verifier::ext_equal]
pub ghost struct CtxModel {
    pub owner: int,
    pub key: u64,
    pub value: int,
}

/// One context injection: under `owner`, `key` resolves to `value`.
pub struct CtxEntry {
    pub owner: usize,
    pub key: u64,
    pub value: u64,
}

impl View for CtxEntry {
    type V = CtxModel;

    open spec fn view(&self) -> CtxModel {
        CtxModel { owner: self.owner as int, key: self.key, value: self.value as int }
    }
}

/// Mathematical value of an [`OwnerArena`].
#[verifier::ext_equal]
pub ghost struct ArenaModel {
    pub parents: Seq<Option<int>>,
    pub alive: Seq<bool>,
    pub ctx: Seq<CtxModel>,
}

impl ArenaModel {
    /// Every node's parent precedes it, and context entries name real nodes.
    pub open spec fn wf(&self) -> bool {
        &&& self.alive.len() == self.parents.len()
        &&& forall|i: int|
            0 <= i < self.parents.len() && self.parents[i] is Some
                ==> 0 <= (#[trigger] self.parents[i])->0 < i
        &&& forall|j: int|
            0 <= j < self.ctx.len() ==> 0 <= (#[trigger] self.ctx[j]).owner
                < self.parents.len()
    }
}

/// `i` is `h` itself or a transitive child of `h`.
pub open spec fn is_under(parents: Seq<Option<int>>, i: int, h: int) -> bool
    decreases i when i >= 0
{
    if i == h {
        true
    } else {
        match parents[i] {
            Some(p) => if 0 <= p < i {
                is_under(parents, p, h)
            } else {
                false
            },
            None => false,
        }
    }
}

/// In a flat arena — one root, every other node a direct child of it —
/// nothing sits under a non-root node but the node itself.
pub proof fn lemma_flat_is_under(parents: Seq<Option<int>>, outer: int, h: int)
    requires
        0 <= outer < parents.len(),
        parents[outer] is None,
        forall|k: int|
            0 <= k < parents.len() && k != outer ==> #[trigger] parents[k] == Some(outer),
        0 <= h < parents.len(),
        h != outer,
    ensures
        forall|j: int| 0 <= j < parents.len() ==> is_under(parents, j, h) == (j == h),
{
    assert forall|j: int| 0 <= j < parents.len() implies is_under(parents, j, h) == (j
        == h) by {
        if j == h {
            assert(is_under(parents, j, h));
        } else if j == outer {
            assert(!is_under(parents, j, h));
        } else {
            assert(parents[j] == Some(outer));
            assert(!is_under(parents, outer, h));
            assert(!is_under(parents, j, h));
        }
    }
}

/// Looking a key up among the entries provided directly under one owner,
/// latest injection first.
pub open spec fn own_lookup(ctx: Seq<CtxModel>, o: int, key: u64) -> Option<int>
    decreases ctx.len(),
{
    if ctx.len() == 0 {
        None
    } else if ctx.last().owner == o && ctx.last().key == key {
        Some(ctx.last().value)
    } else {
        own_lookup(ctx.drop_last(), o, key)
    }
}

/// Ambient lookup: the owner's own entries first, then up the parent chain.
pub open spec fn ctx_lookup(a: ArenaModel, o: int, key: u64) -> Option<int>
    decreases o when 0 <= o < a.parents.len() && a.wf()
{
    match own_lookup(a.ctx, o, key) {
        Some(v) => Some(v),
        None => match a.parents[o] {
            Some(p) => ctx_lookup(a, p, key),
            None => None,
        },
    }
}

/// The arena of owner nodes. Handles are indices; nodes are never removed,
/// only marked released.
pub struct OwnerArena {
    pub parents: Vec<Option<usize>>,
    pub alive: Vec<bool>,
    pub ctx: Vec<CtxEntry>,
}

/// Parent handles as mathematical values.
pub open spec fn parents_model(ps: Seq<Option<usize>>) -> Seq<Option<int>> {
    ps.map_values(
        |p: Option<usize>|
            match p {
                Some(x) => Some(x as int),
                None => None,
            },
    )
}

impl View for OwnerArena {
    type V = ArenaModel;

    open spec fn view(&self) -> ArenaModel {
        ArenaModel {
            parents: parents_model(self.parents@),
            alive: self.alive@,
            ctx: self.ctx@.map_values(|e: CtxEntry| e@),
        }
    }
}

impl OwnerArena {
    pub open spec fn len(&self) -> int {
        self@.parents.len() as int
    }

    /// A fresh arena holding only the caller-supplied outer owner, handle 0.
    pub fn new() -> (a: OwnerArena)
        ensures
            a@.wf(),
            a@.parents == seq![Option::<int>::None],
            a@.alive == seq![true],
            a@.ctx == Seq::<CtxModel>::empty(),
    {
        let a = OwnerArena { parents: vec![None], alive: vec![true], ctx: Vec::new() };
        proof {
            assert(a@.parents =~= seq![Option::<int>::None]);
            assert(a@.alive =~= seq![true]);
            assert(a@.ctx =~= Seq::<CtxModel>::empty());
        }
        a
    }

    /// Allocate a child of `parent`; the new handle is the old length.
    pub fn child(&mut self, parent: usize) -> (h: usize)
        requires
            old(self)@.wf(),
            parent < old(self).len(),
        ensures
            final(self)@.wf(),
            h as int == old(self).len(),
            final(self)@.parents == old(self)@.parents.push(Some(parent as int)),
            final(self)@.alive == old(self)@.alive.push(true),
            final(self)@.ctx == old(self)@.ctx,
    {
        let h = self.parents.len();
        self.parents.push(Some(parent));
        self.alive.push(true);
        proof {
            let newa = final(self)@;
            let olda = old(self)@;
            assert(newa.parents =~= olda.parents.push(Some(parent as int)));
            assert forall|i: int|
                0 <= i < newa.parents.len() && newa.parents[i] is Some
                    implies 0 <= (#[trigger] newa.parents[i])->0 < i by {
                if i < olda.parents.len() {
                    assert(newa.parents[i] == olda.parents[i]);
                } else {
                    assert(newa.parents[i] == Some(parent as int));
                }
            }
            assert forall|j: int|
                0 <= j < newa.ctx.len() implies 0 <= (#[trigger] newa.ctx[j]).owner
                    < newa.parents.len() by {
                assert(0 <= olda.ctx[j].owner < olda.parents.len());
            }
        }
        h
    }

    /// Inject `key -> value` under `owner`.
    pub fn provide(&mut self, owner: usize, key: u64, value: u64)
        requires
            old(self)@.wf(),
            owner < old(self).len(),
        ensures
            final(self)@.wf(),
            final(self)@.parents == old(self)@.parents,
            final(self)@.alive == old(self)@.alive,
            final(self)@.ctx == old(self)@.ctx.push(
                CtxModel { owner: owner as int, key: key, value: value as int },
            ),
    {
        self.ctx.push(CtxEntry { owner, key, value });
        proof {
            assert(final(self)@.ctx =~= old(self)@.ctx.push(
                CtxModel { owner: owner as int, key: key, value: value as int },
            ));
        }
    }

    pub fn is_alive(&self, h: usize) -> (r: bool)
        requires
            self@.wf(),
            h < self.len(),
        ensures
            r == self@.alive[h as int],
    {
        self.alive[h]
    }

    fn is_under_exec(&self, i: usize, h: usize) -> (r: bool)
        requires
            self@.wf(),
            i < self.len(),
            h < self.len(),
        ensures
            r == is_under(self@.parents, i as int, h as int),
    {
        let mut cur = i;
        loop
            invariant
                self@.wf(),
                cur < self.len(),
                is_under(self@.parents, i as int, h as int)
                    == is_under(self@.parents, cur as int, h as int),
            decreases cur,
        {
            if cur == h {
                return true;
            }
            match self.parents[cur] {
                Some(p) => {
                    proof {
                        assert(self@.parents[cur as int] == Some(p as int));
                    }
                    cur = p;
                },
                None => {
                    proof {
                        assert(self@.parents[cur as int] is None);
                    }
                    return false;
                },
            }
        }
    }

    /// Release `h` and, transitively, everything under it. Nodes outside that
    /// subtree, the tree shape and the context are untouched.
    #[verifier::loop_isolation(false)]
    pub fn release(&mut self, h: usize)
        requires
            old(self)@.wf(),
            h < old(self).len(),
        ensures
            final(self)@.wf(),
            final(self)@.parents == old(self)@.parents,
            final(self)@.ctx == old(self)@.ctx,
            final(self)@.alive == Seq::new(
                old(self)@.alive.len(),
                |j: int| old(self)@.alive[j] && !is_under(old(self)@.parents, j, h as int),
            ),
    {
        let ghost orig = self@;
        let ghost released = Seq::new(
            orig.alive.len(),
            |j: int| orig.alive[j] && !is_under(orig.parents, j, h as int),
        );
        let n = self.parents.len();
        let mut i: usize = 0;
        while i < n
            invariant
                self@.wf(),
                n == self@.parents.len(),
                i <= n,
                self@.parents == orig.parents,
                self@.ctx == orig.ctx,
                h < n,
                orig.alive.len() == n,
                self@.alive.len() == n,
                released.len() == orig.alive.len(),
                self@.alive =~= released.take(i as int) + orig.alive.skip(i as int),
            decreases n - i,
        {
            let under = self.is_under_exec(i, h);
            proof {
                assert(self@.alive[i as int] == orig.alive[i as int]);
            }
            if under {
                self.alive.set(i, false);
            }
            proof {
                assert(self@.alive =~= released.take(i as int + 1) + orig.alive.skip(
                    i as int + 1,
                ));
            }
            i += 1;
        }
        proof {
            assert(final(self)@.alive =~= released);
        }
    }

    /// Ambient context read: the owner's own injections first (latest wins),
    /// then up the parent chain.
    pub fn read_context(&self, owner: usize, key: u64) -> (r: Option<u64>)
        requires
            self@.wf(),
            owner < self.len(),
        ensures
            match r {
                Some(v) => ctx_lookup(self@, owner as int, key) == Some(v as int),
                None => ctx_lookup(self@, owner as int, key) is None,
            },
    {
        let mut cur = owner;
        loop
            invariant
                self@.wf(),
                cur < self.len(),
                ctx_lookup(self@, owner as int, key) == ctx_lookup(self@, cur as int, key),
            decreases cur,
        {
            match self.scan_own(cur, key) {
                Some(v) => {
                    return Some(v);
                },
                None => {
                    match self.parents[cur] {
                        Some(p) => {
                            proof {
                                assert(self@.parents[cur as int] == Some(p as int));
                            }
                            cur = p;
                        },
                        None => {
                            proof {
                                assert(self@.parents[cur as int] is None);
                            }
                            return None;
                        },
                    }
                },
            }
        }
    }

    fn scan_own(&self, o: usize, key: u64) -> (r: Option<u64>)
        requires
            self@.wf(),
            o < self.len(),
        ensures
            match r {
                Some(v) => own_lookup(self@.ctx, o as int, key) == Some(v as int),
                None => own_lookup(self@.ctx, o as int, key) is None,
            },
    {
        let mut j = self.ctx.len();
        proof {
            assert(self@.ctx.take(j as int) =~= self@.ctx);
        }
        while j > 0
            invariant
                self@.wf(),
                j <= self.ctx.len(),
                self@.ctx.len() == self.ctx@.len(),
                own_lookup(self@.ctx, o as int, key)
                    == own_lookup(self@.ctx.take(j as int), o as int, key),
            decreases j,
        {
            j = j - 1;
            let e_owner = self.ctx[j].owner;
            let e_key = self.ctx[j].key;
            proof {
                assert(self@.ctx.take(j as int + 1).last() == self@.ctx[j as int]);
                assert(self@.ctx.take(j as int + 1).drop_last() =~= self@.ctx.take(j as int));
                assert(self@.ctx[j as int] == self.ctx@[j as int]@);
            }
            if e_owner == o && e_key == key {
                return Some(self.ctx[j].value);
            }
        }
        proof {
            assert(self@.ctx.take(0) =~= Seq::<CtxModel>::empty());
        }
        None
    }
}

} // verus!
