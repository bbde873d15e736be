//! Queries: read-only, restartable traversals over matching archetypes.
//!
//! A query names a required and an excluded component-type set. Iterating
//! it scans the archetype set once, retains the archetypes whose type set
//! is a superset of the required types and disjoint from the excluded
//! ones, and yields their entities in archetype order, then row order.
//! Re-issuing the traversal re-scans current state; the borrow of the
//! world for the traversal's duration keeps structural mutation out.

use vstd::prelude::*;

use crate::archetype::{Archetype, ArchetypeModel};
use crate::component::contains_type_id;
use crate::entity::Entity;
use crate::world::{World, WorldModel};

verus! {

/// Whether an archetype's type set is a superset of `required` and
/// disjoint from `excluded`.
pub open spec fn arch_matches(
    arch: ArchetypeModel,
    required: Seq<u64>,
    excluded: Seq<u64>,
) -> bool {
    &&& forall|i: int| 0 <= i < required.len() ==> arch.types.contains(#[trigger] required[i])
    &&& forall|i: int| 0 <= i < excluded.len() ==> !arch.types.contains(#[trigger] excluded[i])
}

/// The entities of the matching archetypes among the first `n`, in
/// archetype order then row order.
pub open spec fn query_results_upto(
    w: WorldModel,
    required: Seq<u64>,
    excluded: Seq<u64>,
    n: int,
) -> Seq<Entity>
    decreases n,
{
    if n <= 0 {
        Seq::empty()
    } else {
        let prefix = query_results_upto(w, required, excluded, n - 1);
        if arch_matches(w.archetypes[n - 1], required, excluded) {
            prefix + w.archetypes[n - 1].entities
        } else {
            prefix
        }
    }
}

/// Every entity a query over the world yields, in yield order.
pub open spec fn query_results(w: WorldModel, required: Seq<u64>, excluded: Seq<u64>) -> Seq<
    Entity,
> {
    query_results_upto(w, required, excluded, w.archetypes.len() as int)
}

proof fn lemma_upto_contains(w: WorldModel, required: Seq<u64>, excluded: Seq<u64>, n: int)
    requires
        0 <= n <= w.archetypes.len(),
    ensures
        forall|e: Entity|
            #[trigger] query_results_upto(w, required, excluded, n).contains(e) <==> exists|a: int|
                0 <= a < n && arch_matches(#[trigger] w.archetypes[a], required, excluded)
                    && w.archetypes[a].entities.contains(e),
    decreases n,
{
    broadcast use vstd::seq_lib::group_seq_properties;

    if n > 0 {
        lemma_upto_contains(w, required, excluded, n - 1);
        let prefix = query_results_upto(w, required, excluded, n - 1);
        let whole = query_results_upto(w, required, excluded, n);
        assert forall|e: Entity| #[trigger] whole.contains(e) implies exists|a: int|
            0 <= a < n && arch_matches(#[trigger] w.archetypes[a], required, excluded)
                && w.archetypes[a].entities.contains(e) by {
            if arch_matches(w.archetypes[n - 1], required, excluded) {
                if prefix.contains(e) {
                } else {
                    let k = choose|k: int| 0 <= k < whole.len() && whole[k] == e;
                    assert(w.archetypes[n - 1].entities[k - prefix.len()] == e);
                    assert(arch_matches(w.archetypes[n - 1], required, excluded)
                        && w.archetypes[n - 1].entities.contains(e));
                }
            }
        }
        assert forall|e: Entity|
            (exists|a: int|
                0 <= a < n && arch_matches(#[trigger] w.archetypes[a], required, excluded)
                    && w.archetypes[a].entities.contains(e)) implies #[trigger] whole.contains(
            e,
        ) by {
            let a = choose|a: int|
                0 <= a < n && arch_matches(#[trigger] w.archetypes[a], required, excluded)
                    && w.archetypes[a].entities.contains(e);
            if a < n - 1 {
                assert(prefix.contains(e));
                if arch_matches(w.archetypes[n - 1], required, excluded) {
                    let k = choose|k: int| 0 <= k < prefix.len() && prefix[k] == e;
                    assert(whole[k] == e);
                }
            } else {
                let k = choose|k: int|
                    0 <= k < w.archetypes[a].entities.len() && w.archetypes[a].entities[k] == e;
                assert(whole[prefix.len() + k] == e);
            }
        }
    }
}

proof fn lemma_upto_no_duplicates(w: WorldModel, required: Seq<u64>, excluded: Seq<u64>, n: int)
    requires
        w.wf(),
        0 <= n <= w.archetypes.len(),
        w.archetypes.len() <= usize::MAX,
        forall|a: int|
            0 <= a < n && arch_matches(#[trigger] w.archetypes[a], required, excluded)
                ==> w.archetypes[a].entities.len() <= usize::MAX,
    ensures
        query_results_upto(w, required, excluded, n).no_duplicates(),
    decreases n,
{
    broadcast use vstd::seq_lib::group_seq_properties;

    if n > 0 {
        lemma_upto_no_duplicates(w, required, excluded, n - 1);
        lemma_upto_contains(w, required, excluded, n - 1);
        let prefix = query_results_upto(w, required, excluded, n - 1);
        let whole = query_results_upto(w, required, excluded, n);
        if arch_matches(w.archetypes[n - 1], required, excluded) {
            let ents = w.archetypes[n - 1].entities;
            assert forall|i: int, j: int|
                0 <= i < whole.len() && 0 <= j < whole.len() && i != j implies whole[i]
                != whole[j] by {
                let p = prefix.len() as int;
                if i < p && j < p {
                    assert(whole[i] == prefix[i]);
                    assert(whole[j] == prefix[j]);
                } else if i >= p && j >= p {
                    let e1 = ents[i - p];
                    let e2 = ents[j - p];
                    assert(w.locations[e1.id as int] == Some(
                        crate::world::EntityLocation {
                            archetype: (n - 1) as usize,
                            row: (i - p) as usize,
                        },
                    ));
                    assert(w.locations[e2.id as int] == Some(
                        crate::world::EntityLocation {
                            archetype: (n - 1) as usize,
                            row: (j - p) as usize,
                        },
                    ));
                    if e1 == e2 {
                        assert(ents.len() <= usize::MAX);
                        assert((i - p) as usize == (j - p) as usize);
                        assert((i - p) as usize as int == i - p);
                        assert((j - p) as usize as int == j - p);
                    }
                } else {
                    let (pi, ei) = if i < p {
                        (i, j)
                    } else {
                        (j, i)
                    };
                    let e1 = prefix[pi];
                    let e2 = ents[ei - p];
                    assert(whole[pi] == e1);
                    assert(whole[ei] == ents[ei - p]);
                    assert(prefix.contains(e1));
                    let a = choose|a: int|
                        0 <= a < n - 1 && arch_matches(
                            #[trigger] w.archetypes[a],
                            required,
                            excluded,
                        ) && w.archetypes[a].entities.contains(e1);
                    let r = choose|r: int|
                        0 <= r < w.archetypes[a].entities.len() && w.archetypes[a].entities[r]
                            == e1;
                    assert(w.archetypes[a].entities[r] == e1);
                    assert(w.locations[e1.id as int] == Some(
                        crate::world::EntityLocation { archetype: a as usize, row: r as usize },
                    ));
                    assert(w.locations[e2.id as int] == Some(
                        crate::world::EntityLocation {
                            archetype: (n - 1) as usize,
                            row: (ei - p) as usize,
                        },
                    ));
                    if e1 == e2 {
                        assert(a as usize == (n - 1) as usize);
                        assert(a < n - 1);
                        assert(a as usize as int == a) by {
                            assert(a < w.archetypes.len());
                            assert(w.archetypes.len() <= usize::MAX);
                        }
                        assert((n - 1) as usize as int == n - 1);
                    }
                }
            }
        }
    }
}

/// Law: a query yields exactly the live entities whose component-type set
/// contains every required type and no excluded one, each once.
pub proof fn lemma_query_results_characterize(
    w: WorldModel,
    required: Seq<u64>,
    excluded: Seq<u64>,
)
    requires
        w.wf(),
        w.archetypes.len() <= usize::MAX,
    ensures
        forall|e: Entity|
            #[trigger] query_results(w, required, excluded).contains(e) <==> (w.live(e)
                && arch_matches(w.arch_of(e), required, excluded)),
{
    lemma_upto_contains(w, required, excluded, w.archetypes.len() as int);
    assert forall|e: Entity|
        #[trigger] query_results(w, required, excluded).contains(e) <==> (w.live(e)
            && arch_matches(w.arch_of(e), required, excluded)) by {
        if query_results(w, required, excluded).contains(e) {
            let a = choose|a: int|
                0 <= a < w.archetypes.len() && arch_matches(
                    #[trigger] w.archetypes[a],
                    required,
                    excluded,
                ) && w.archetypes[a].entities.contains(e);
            let r = choose|r: int|
                0 <= r < w.archetypes[a].entities.len() && w.archetypes[a].entities[r] == e;
            assert(w.archetypes[a].entities[r] == e);
            assert(w.locations[e.id as int] == Some(
                crate::world::EntityLocation { archetype: a as usize, row: r as usize },
            ));
            assert(e.id < w.locations.len());
            assert(w.locations[e.id as int] is Some);
            assert(w.alloc.alive[e.id as int]);
            assert(e.generation == w.alloc.generations[e.id as int]);
            assert(e.id < w.alloc.generations.len());
            assert(w.live(e));
            assert(a as usize as int == a);
            assert(w.arch_of(e) == w.archetypes[a]);
        }
        if w.live(e) && arch_matches(w.arch_of(e), required, excluded) {
            assert(w.locations[e.id as int] is Some);
            assert(w.located_ok(e.id as int));
            let l = w.locations[e.id as int].unwrap();
            assert(w.archetypes[l.archetype as int].entities[l.row as int] == e);
            assert(w.archetypes[l.archetype as int].entities.contains(e));
        }
    }
}

/// Whether one archetype passes a filter: every type of `required`
/// present, no type of `excluded` present.
fn matches_filter(arch: &Archetype, required: &Vec<u64>, excluded: &Vec<u64>) -> (r: bool)
    ensures
        r == arch_matches(arch@, required@, excluded@),
{
    let nr = required.len();
    for i in 0..nr
        invariant
            nr == required@.len(),
            forall|k: int| 0 <= k < i ==> arch@.types.contains(#[trigger] required@[k]),
    {
        if !contains_type_id(arch.type_ids(), required[i]) {
            proof {
                assert(!arch@.types.contains(required@[i as int]));
            }
            return false;
        }
    }
    let ne = excluded.len();
    for i in 0..ne
        invariant
            ne == excluded@.len(),
            forall|k: int| 0 <= k < nr as int ==> arch@.types.contains(#[trigger] required@[k]),
            nr == required@.len(),
            forall|k: int| 0 <= k < i ==> !arch@.types.contains(#[trigger] excluded@[k]),
    {
        if contains_type_id(arch.type_ids(), excluded[i]) {
            proof {
                assert(arch@.types.contains(excluded@[i as int]));
            }
            return false;
        }
    }
    true
}

proof fn lemma_upto_prefix(w: WorldModel, required: Seq<u64>, excluded: Seq<u64>, m: int, n: int)
    requires
        0 <= m <= n <= w.archetypes.len(),
    ensures
        query_results_upto(w, required, excluded, m).len() <= query_results_upto(
            w,
            required,
            excluded,
            n,
        ).len(),
        forall|k: int|
            0 <= k < query_results_upto(w, required, excluded, m).len()
                ==> #[trigger] query_results_upto(w, required, excluded, n)[k]
                == query_results_upto(w, required, excluded, m)[k],
    decreases n,
{
    if n > m {
        lemma_upto_prefix(w, required, excluded, m, n - 1);
    }
}

/// A read-only traversal filter: required component types, and component
/// types that disqualify an archetype.
pub struct Query {
    required: Vec<u64>,
    excluded: Vec<u64>,
}

impl Query {
    pub closed spec fn required_types(&self) -> Seq<u64> {
        self.required@
    }

    pub closed spec fn excluded_types(&self) -> Seq<u64> {
        self.excluded@
    }

    /// A query for the entities carrying every type of `required` and no
    /// type of `excluded`.
    pub fn new(required: Vec<u64>, excluded: Vec<u64>) -> (r: Query)
        ensures
            r.required_types() == required@,
            r.excluded_types() == excluded@,
    {
        Query { required, excluded }
    }

    /// Whether one archetype passes the query's filter.
    fn matches(&self, arch: &Archetype) -> (r: bool)
        ensures
            r == arch_matches(arch@, self.required_types(), self.excluded_types()),
    {
        matches_filter(arch, &self.required, &self.excluded)
    }

    /// One full traversal over current state: every entity of every
    /// matching archetype, in archetype order then row order. Restartable:
    /// calling it again re-scans the world as it then stands.
    pub fn iter(&self, world: &World) -> (r: Vec<Entity>)
        requires
            world@.wf(),
        ensures
            r@ == query_results(world@, self.required_types(), self.excluded_types()),
            r@.no_duplicates(),
            forall|e: Entity|
                #[trigger] r@.contains(e) <==> (world@.live(e) && arch_matches(
                    world@.arch_of(e),
                    self.required_types(),
                    self.excluded_types(),
                )),
    {
        let mut out: Vec<Entity> = Vec::new();
        let n = world.archetype_count();
        proof {
            assert(out@ =~= query_results_upto(
                world@,
                self.required_types(),
                self.excluded_types(),
                0,
            ));
        }
        for a in 0..n
            invariant
                world@.wf(),
                n == world@.archetypes.len(),
                out@ == query_results_upto(
                    world@,
                    self.required_types(),
                    self.excluded_types(),
                    a as int,
                ),
                forall|k: int|
                    0 <= k < a && arch_matches(
                        #[trigger] world@.archetypes[k],
                        self.required_types(),
                        self.excluded_types(),
                    ) ==> world@.archetypes[k].entities.len() <= usize::MAX,
        {
            let arch = world.archetype_at(a);
            if self.matches(arch) {
                let rows = arch.row_count();
                let ghost out_pre = out@;
                for r in 0..rows
                    invariant
                        rows == arch@.entities.len(),
                        arch@ == world@.archetypes[a as int],
                        out@ == out_pre + arch@.entities.take(r as int),
                {
                    out.push(arch.entity_at(r));
                    proof {
                        assert(out@ =~= out_pre + arch@.entities.take(r + 1));
                    }
                }
                proof {
                    assert(world@.archetypes[a as int].entities.len() == rows as nat);
                    assert(arch@.entities.take(rows as int) =~= arch@.entities);
                    assert(out@ =~= query_results_upto(
                        world@,
                        self.required_types(),
                        self.excluded_types(),
                        a + 1,
                    ));
                }
            } else {
                proof {
                    assert(out@ =~= query_results_upto(
                        world@,
                        self.required_types(),
                        self.excluded_types(),
                        a + 1,
                    ));
                }
            }
        }
        proof {
            assert(world@.archetypes.len() == n as nat);
            lemma_upto_no_duplicates(
                world@,
                self.required_types(),
                self.excluded_types(),
                n as int,
            );
            lemma_query_results_characterize(
                world@,
                self.required_types(),
                self.excluded_types(),
            );
        }
        out
    }
}

impl Query {
    /// The components a yielded entity pairs with: one byte-block copy
    /// per required type, in the query's order. `None` for an entity the
    /// query would not yield a row for (stale, or missing a required
    /// type).
    pub fn fetch(&self, world: &World, e: Entity) -> (r: Option<Vec<Vec<u8>>>)
        requires
            world@.wf(),
        ensures
            match r {
                Some(blocks) => {
                    &&& world@.live(e)
                    &&& blocks@.len() == self.required_types().len()
                    &&& forall|i: int|
                        0 <= i < blocks@.len() ==> world@.has_component(
                            e,
                            #[trigger] self.required_types()[i],
                        ) && blocks@[i]@ == world@.block_of(e, self.required_types()[i])
                },
                None => !world@.live(e) || exists|i: int|
                    0 <= i < self.required_types().len() && !world@.has_component(
                        e,
                        #[trigger] self.required_types()[i],
                    ),
            },
    {
        let mut blocks: Vec<Vec<u8>> = Vec::new();
        let n = self.required.len();
        for i in 0..n
            invariant
                world@.wf(),
                n == self.required_types().len(),
                blocks@.len() == i,
                forall|k: int|
                    0 <= k < i ==> world@.has_component(e, #[trigger] self.required_types()[k])
                        && blocks@[k]@ == world@.block_of(e, self.required_types()[k]),
        {
            match world.get_component(e, self.required[i]) {
                Some(b) => {
                    blocks.push(b);
                },
                None => {
                    return None;
                },
            }
        }
        if world.is_alive(e) {
            Some(blocks)
        } else {
            None
        }
    }
}

/// A lazy traversal in progress: the position of the next entity to
/// yield, advanced one call at a time and never materialized.
pub struct QueryIter {
    required: Vec<u64>,
    excluded: Vec<u64>,
    arch: usize,
    row: usize,
}

impl QueryIter {
    pub closed spec fn required_types(&self) -> Seq<u64> {
        self.required@
    }

    pub closed spec fn excluded_types(&self) -> Seq<u64> {
        self.excluded@
    }

    /// The entities the cursor has already yielded against `w`, in yield
    /// order.
    pub closed spec fn yielded(&self, w: WorldModel) -> Seq<Entity> {
        query_results_upto(w, self.required@, self.excluded@, self.arch as int) + (
        if self.arch < w.archetypes.len() && arch_matches(
            w.archetypes[self.arch as int],
            self.required@,
            self.excluded@,
        ) {
            w.archetypes[self.arch as int].entities.take(self.row as int)
        } else {
            Seq::empty()
        })
    }

    /// The cursor points at a sound position in `w`.
    pub closed spec fn wf_for(&self, w: WorldModel) -> bool {
        &&& self.arch as int <= w.archetypes.len()
        &&& (self.arch < w.archetypes.len() && arch_matches(
            w.archetypes[self.arch as int],
            self.required@,
            self.excluded@,
        ) ==> self.row as int <= w.archetypes[self.arch as int].entities.len())
        &&& (self.arch < w.archetypes.len() && !arch_matches(
            w.archetypes[self.arch as int],
            self.required@,
            self.excluded@,
        ) ==> self.row == 0)
    }

    /// A cursor at the start: nothing yielded yet, sound for any world.
    pub fn new(required: Vec<u64>, excluded: Vec<u64>) -> (r: QueryIter)
        ensures
            r.required_types() == required@,
            r.excluded_types() == excluded@,
            forall|w: WorldModel| #[trigger] r.yielded(w) == Seq::<Entity>::empty(),
            forall|w: WorldModel| #[trigger] r.wf_for(w),
    {
        let r = QueryIter { required, excluded, arch: 0, row: 0 };
        proof {
            assert forall|w: WorldModel| #[trigger] r.yielded(w) == Seq::<Entity>::empty() by {
                assert(r.yielded(w) =~= Seq::<Entity>::empty());
            }
        }
        r
    }

    proof fn lemma_yielded_prefix(&self, w: WorldModel)
        requires
            w.wf(),
            self.wf_for(w),
        ensures
            self.yielded(w).len() <= query_results(w, self.required_types(), self.excluded_types()).len(),
            forall|k: int|
                0 <= k < self.yielded(w).len() ==> #[trigger] query_results(
                    w,
                    self.required_types(),
                    self.excluded_types(),
                )[k] == self.yielded(w)[k],
    {
        let req = self.required@;
        let exc = self.excluded@;
        let a = self.arch as int;
        if a < w.archetypes.len() && arch_matches(w.archetypes[a], req, exc) {
            assert(query_results_upto(w, req, exc, a + 1) == query_results_upto(w, req, exc, a)
                + w.archetypes[a].entities);
            lemma_upto_prefix(w, req, exc, a + 1, w.archetypes.len() as int);
        } else {
            assert(self.yielded(w) =~= query_results_upto(w, req, exc, a));
            lemma_upto_prefix(w, req, exc, a, w.archetypes.len() as int);
        }
    }

    /// The next entity of the traversal, in archetype order then row
    /// order: the `k`-th successful call returns the `k`-th entry of
    /// [`query_results`]; `None` exactly when the traversal is done.
    pub fn next(&mut self, world: &World) -> (r: Option<Entity>)
        requires
            world@.wf(),
            old(self).wf_for(world@),
        ensures
            final(self).wf_for(world@),
            final(self).required_types() == old(self).required_types(),
            final(self).excluded_types() == old(self).excluded_types(),
            match r {
                Some(e) => {
                    &&& final(self).yielded(world@) == old(self).yielded(world@).push(e)
                    &&& old(self).yielded(world@).len() < query_results(
                        world@,
                        old(self).required_types(),
                        old(self).excluded_types(),
                    ).len()
                    &&& e == query_results(
                        world@,
                        old(self).required_types(),
                        old(self).excluded_types(),
                    )[old(self).yielded(world@).len() as int]
                },
                None => {
                    &&& final(self).yielded(world@) == old(self).yielded(world@)
                    &&& old(self).yielded(world@) == query_results(
                        world@,
                        old(self).required_types(),
                        old(self).excluded_types(),
                    )
                },
            },
    {
        let ghost w = world@;
        let ghost req = self.required@;
        let ghost exc = self.excluded@;
        let n = world.archetype_count();
        loop
            invariant
                world@ == w,
                w.wf(),
                n == w.archetypes.len(),
                self.wf_for(w),
                self.required@ == req,
                self.excluded@ == exc,
                req == old(self).required@,
                exc == old(self).excluded@,
                self.yielded(w) == old(self).yielded(w),
            decreases w.archetypes.len() - self.arch as int,
        {
            if self.arch >= n {
                proof {
                    assert(self.yielded(w) =~= query_results_upto(w, req, exc, n as int));
                }
                return None;
            }
            let arch = world.archetype_at(self.arch);
            if !matches_filter(arch, &self.required, &self.excluded) {
                let ghost pre = *self;
                self.arch = self.arch + 1;
                self.row = 0;
                proof {
                    assert(query_results_upto(w, req, exc, pre.arch + 1) == query_results_upto(
                        w,
                        req,
                        exc,
                        pre.arch as int,
                    ));
                    assert(self.yielded(w) =~= pre.yielded(w));
                }
            } else {
                let rows = arch.row_count();
                if self.row < rows {
                    let e = arch.entity_at(self.row);
                    let ghost pre = *self;
                    proof {
                        pre.lemma_yielded_prefix(w);
                        assert(query_results_upto(w, req, exc, pre.arch + 1)
                            == query_results_upto(w, req, exc, pre.arch as int)
                            + w.archetypes[pre.arch as int].entities);
                        lemma_upto_prefix(w, req, exc, pre.arch + 1, n as int);
                    }
                    self.row = self.row + 1;
                    proof {
                        assert(self.yielded(w) =~= pre.yielded(w).push(e));
                        let ylen = pre.yielded(w).len() as int;
                        assert(query_results(w, req, exc)[ylen] == query_results_upto(
                            w,
                            req,
                            exc,
                            pre.arch + 1,
                        )[ylen]);
                        assert(query_results_upto(w, req, exc, pre.arch + 1)[ylen] == e);
                        assert(query_results(w, req, exc).len() > ylen);
                    }
                    return Some(e);
                } else {
                    let ghost pre = *self;
                    self.arch = self.arch + 1;
                    self.row = 0;
                    proof {
                        assert(w.archetypes[pre.arch as int].entities.take(pre.row as int)
                            =~= w.archetypes[pre.arch as int].entities);
                        assert(query_results_upto(w, req, exc, pre.arch + 1)
                            == query_results_upto(w, req, exc, pre.arch as int)
                            + w.archetypes[pre.arch as int].entities);
                        assert(self.yielded(w) =~= pre.yielded(w));
                    }
                }
            }
        }
    }
}

impl Query {
    /// Starts a lazy traversal with this query's filter; re-issuing a
    /// cursor re-scans current state.
    pub fn cursor(&self) -> (r: QueryIter)
        ensures
            r.required_types() == self.required_types(),
            r.excluded_types() == self.excluded_types(),
            forall|w: WorldModel| #[trigger] r.yielded(w) == Seq::<Entity>::empty(),
            forall|w: WorldModel| #[trigger] r.wf_for(w),
    {
        QueryIter::new(
            crate::component::copy_types(&self.required),
            crate::component::copy_types(&self.excluded),
        )
    }
}

impl World {
    /// Builds a query over this world's entities; the traversal itself
    /// borrows the world read-only for its duration.
    pub fn query(&self, required: Vec<u64>, excluded: Vec<u64>) -> (r: Query)
        ensures
            r.required_types() == required@,
            r.excluded_types() == excluded@,
    {
        Query::new(required, excluded)
    }
}

} // verus!
