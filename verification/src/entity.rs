//! Entity handles and the generational entity allocator.
//!
//! An [`Entity`] is an opaque handle made of an id and a generation counter.
//! The [`EntityAllocator`] issues fresh ids from a monotonic counter and
//! recycles freed ids through a free list; every time an id is freed its
//! generation is bumped, so a stale handle (one freed earlier) can be told
//! apart from the handle issued when the id is reused.

use vstd::prelude::*;

verus! {

/// An opaque handle identifying a logical object across its lifetime.
///
/// After the id is freed and reused, the generation differs, so stale
/// handles are detectable.
#[derive(Clone, Copy, PartialEq, Eq, Structural, Debug, Hash)]
pub struct Entity {
    pub id: usize,
    pub generation: u64,
}

/// The error kinds of the storage core.
#[derive(Clone, Copy, PartialEq, Eq, Structural, Debug)]
pub enum EcsError {
    /// The handle's generation does not match the allocator's current
    /// generation for its id, or the id was never allocated.
    InvalidEntity,
    /// The id space is exhausted; fatal and not recoverable internally.
    AllocatorExhausted,
    /// Two component values of the same component type were supplied for
    /// one entity.
    DuplicateComponentType,
}

/// The next generation after `g`: one more, wrapping to zero at the top.
///
/// Wrapping keeps `free` total; a handle can only collide with a later
/// handle for the same id after the full generation space has been walked.
pub open spec fn next_generation(g: u64) -> u64 {
    if g == u64::MAX {
        0
    } else {
        (g + 1) as u64
    }
}

/// Mathematical model of the allocator: one slot per id ever issued.
#[verifier::ext_equal]
pub struct AllocatorModel {
    /// Current generation of each id.
    pub generations: Seq<u64>,
    /// Whether each id is currently live.
    pub alive: Seq<bool>,
    /// Ids available for recycling, popped from the back.
    pub free_ids: Seq<usize>,
}

impl AllocatorModel {
    /// Well-formedness: the slot arrays run in lockstep and the free list
    /// holds exactly the dead ids, each once.
    pub open spec fn wf(self) -> bool {
        &&& self.alive.len() == self.generations.len()
        &&& forall|i: int|
            0 <= i < self.free_ids.len() ==> (#[trigger] self.free_ids[i]) < self.generations.len()
                && !self.alive[self.free_ids[i] as int]
        &&& self.free_ids.no_duplicates()
        &&& forall|id: usize|
            id < self.alive.len() && !(#[trigger] self.alive[id as int]) ==> self.free_ids.contains(
                id,
            )
    }

    /// A handle is valid iff its id is live and its generation matches the
    /// allocator's current generation for that id.
    pub open spec fn live(self, e: Entity) -> bool {
        &&& e.id < self.generations.len()
        &&& self.alive[e.id as int]
        &&& self.generations[e.id as int] == e.generation
    }

    pub open spec fn empty() -> AllocatorModel {
        AllocatorModel { generations: Seq::empty(), alive: Seq::empty(), free_ids: Seq::empty() }
    }
}

/// Relation between the allocator states before and after a successful
/// `free(e)`.
pub open spec fn free_post(m0: AllocatorModel, m1: AllocatorModel, e: Entity) -> bool {
    &&& m0.live(e)
    &&& m1.generations == m0.generations.update(e.id as int, next_generation(e.generation))
    &&& m1.alive == m0.alive.update(e.id as int, false)
    &&& m1.free_ids == m0.free_ids.push(e.id)
}

/// Relation between the allocator states before and after a successful
/// `allocate` returning `e`.
pub open spec fn allocate_post(m0: AllocatorModel, m1: AllocatorModel, e: Entity) -> bool {
    if m0.free_ids.len() > 0 {
        &&& e.id == m0.free_ids.last()
        &&& e.generation == m0.generations[e.id as int]
        &&& m1.generations == m0.generations
        &&& m1.alive == m0.alive.update(e.id as int, true)
        &&& m1.free_ids == m0.free_ids.drop_last()
    } else {
        &&& e.id == m0.generations.len()
        &&& e.generation == 0
        &&& m1.generations == m0.generations.push(0)
        &&& m1.alive == m0.alive.push(true)
        &&& m1.free_ids == m0.free_ids
    }
}

/// Issues and recycles entity identities with generation counters.
pub struct EntityAllocator {
    generations: Vec<u64>,
    alive: Vec<bool>,
    free_ids: Vec<usize>,
}

impl View for EntityAllocator {
    type V = AllocatorModel;

    closed spec fn view(&self) -> AllocatorModel {
        AllocatorModel {
            generations: self.generations@,
            alive: self.alive@,
            free_ids: self.free_ids@,
        }
    }
}

impl EntityAllocator {
    pub fn new() -> (r: EntityAllocator)
        ensures
            r@ == AllocatorModel::empty(),
            r@.wf(),
    {
        let r = EntityAllocator { generations: Vec::new(), alive: Vec::new(), free_ids: Vec::new() };
        proof {
            assert(r@.generations =~= Seq::<u64>::empty());
            assert(r@.alive =~= Seq::<bool>::empty());
            assert(r@.free_ids =~= Seq::<usize>::empty());
        }
        r
    }

    /// Returns a fresh id (monotonic counter) if the free list is empty,
    /// else pops the most recently freed id and pairs it with its stored
    /// generation; either way the id is marked live.
    ///
    /// Fails with `AllocatorExhausted` only when the id space is spent.
    pub fn allocate(&mut self) -> (r: Result<Entity, EcsError>)
        requires
            old(self)@.wf(),
        ensures
            final(self)@.wf(),
            match r {
                Ok(e) => {
                    &&& allocate_post(old(self)@, final(self)@, e)
                    &&& final(self)@.live(e)
                    &&& !old(self)@.live(e)
                },
                Err(err) => {
                    &&& err == EcsError::AllocatorExhausted
                    &&& final(self)@ == old(self)@
                    &&& old(self)@.free_ids.len() == 0
                    &&& old(self)@.generations.len() == usize::MAX
                },
            },
    {
        let ghost m0 = old(self)@;
        match self.free_ids.pop() {
            Some(id) => {
                proof {
                    assert(id == m0.free_ids[m0.free_ids.len() - 1]);
                }
                self.alive[id] = true;
                let e = Entity { id, generation: self.generations[id] };
                proof {
                    let m1 = self@;
                    assert forall|i: int|
                        0 <= i < m1.free_ids.len() implies (#[trigger] m1.free_ids[i])
                        < m1.generations.len() && !m1.alive[m1.free_ids[i] as int] by {
                        assert(m1.free_ids[i] == m0.free_ids[i]);
                        assert(m0.free_ids[i] != id) by {
                            assert(m0.free_ids.no_duplicates());
                            assert(m0.free_ids[m0.free_ids.len() - 1] == id);
                        }
                    }
                    assert forall|j: usize|
                        j < m1.alive.len() && !(#[trigger] m1.alive[j as int]) implies m1
                        .free_ids
                        .contains(j) by {
                        assert(m0.free_ids.contains(j));
                        let k = choose|k: int| 0 <= k < m0.free_ids.len() && m0.free_ids[k] == j;
                        assert(k < m0.free_ids.len() - 1) by {
                            if k == m0.free_ids.len() - 1 {
                                assert(m0.free_ids[k] == id);
                                assert(m1.alive[j as int]);
                            }
                        }
                        assert(m1.free_ids[k] == j);
                    }
                }
                Ok(e)
            },
            None => {
                if self.generations.len() < usize::MAX {
                    let id = self.generations.len();
                    self.generations.push(0);
                    self.alive.push(true);
                    let e = Entity { id, generation: 0 };
                    proof {
                        let m0 = old(self)@;
                        let m1 = self@;
                        assert forall|j: usize|
                            j < m1.alive.len() && !(#[trigger] m1.alive[j as int]) implies m1
                            .free_ids
                            .contains(j) by {
                            assert(j < m0.alive.len() && m0.alive[j as int] == m1.alive[j as int]);
                        }
                    }
                    Ok(e)
                } else {
                    Err(EcsError::AllocatorExhausted)
                }
            },
        }
    }

    /// Fails if the handle is stale or its id was never allocated; on
    /// success bumps the id's generation (wrapping, see
    /// [`next_generation`]) and pushes the id onto the free list.
    pub fn free(&mut self, e: Entity) -> (r: Result<(), EcsError>)
        requires
            old(self)@.wf(),
        ensures
            final(self)@.wf(),
            match r {
                Ok(()) => free_post(old(self)@, final(self)@, e),
                Err(err) => {
                    &&& err == EcsError::InvalidEntity
                    &&& !old(self)@.live(e)
                    &&& final(self)@ == old(self)@
                },
            },
    {
        if e.id < self.generations.len() && self.alive[e.id] && self.generations[e.id]
            == e.generation {
            let ghost m0 = self@;
            self.alive[e.id] = false;
            let g = self.generations[e.id];
            let bumped = if g == u64::MAX {
                0
            } else {
                g + 1
            };
            self.generations[e.id] = bumped;
            self.free_ids.push(e.id);
            proof {
                let m1 = self@;
                assert forall|i: int|
                    0 <= i < m1.free_ids.len() implies (#[trigger] m1.free_ids[i])
                    < m1.generations.len() && !m1.alive[m1.free_ids[i] as int] by {
                    if i < m0.free_ids.len() {
                        assert(m1.free_ids[i] == m0.free_ids[i]);
                        assert(m0.free_ids[i] != e.id);
                    } else {
                        assert(m1.free_ids[i] == e.id);
                    }
                }
                assert(m1.free_ids.no_duplicates()) by {
                    assert forall|i: int, j: int|
                        0 <= i < j < m1.free_ids.len() implies m1.free_ids[i] != m1.free_ids[j] by {
                        if j < m0.free_ids.len() {
                            assert(m0.free_ids[i] != m0.free_ids[j]);
                        } else {
                            assert(m1.free_ids[j] == e.id);
                            assert(m0.free_ids[i] != e.id);
                        }
                    }
                }
                assert forall|j: usize|
                    j < m1.alive.len() && !(#[trigger] m1.alive[j as int]) implies m1
                    .free_ids
                    .contains(j) by {
                    if j == e.id {
                        assert(m1.free_ids[m1.free_ids.len() - 1] == e.id);
                    } else {
                        assert(m0.free_ids.contains(j));
                        let k = choose|k: int| 0 <= k < m0.free_ids.len() && m0.free_ids[k] == j;
                        assert(m1.free_ids[k] == j);
                    }
                }
            }
            Ok(())
        } else {
            Err(EcsError::InvalidEntity)
        }
    }

    /// True iff the handle's generation matches the current generation of a
    /// live id.
    pub fn is_alive(&self, e: Entity) -> (r: bool)
        requires
            self@.wf(),
        ensures
            r == self@.live(e),
    {
        e.id < self.generations.len() && self.alive[e.id] && self.generations[e.id] == e.generation
    }
}

/// Law: once an id is freed, the handle issued when that id is recycled
/// carries a different generation, so the old handle stays dead while the
/// new one is live.
///
/// `m0 -> m1` is the free of `e`; `m2 -> m3` is the allocate returning `r`
/// with the same id; in between, the id's slot must not have been touched
/// (which holds across frees and allocations of other ids).
pub proof fn lemma_recycled_generation_differs(
    m0: AllocatorModel,
    m1: AllocatorModel,
    m2: AllocatorModel,
    m3: AllocatorModel,
    e: Entity,
    r: Entity,
)
    requires
        m0.wf(),
        free_post(m0, m1, e),
        allocate_post(m2, m3, r),
        r.id == e.id,
        e.id < m2.generations.len(),
        m2.generations[e.id as int] == m1.generations[e.id as int],
        !m2.alive[e.id as int],
        m2.wf(),
    ensures
        r.generation != e.generation,
        !m3.live(e),
        m3.live(r),
{
    assert(m1.generations[e.id as int] == next_generation(e.generation));
    assert(m2.free_ids.len() > 0) by {
        assert(m2.free_ids.contains(e.id));
    }
    assert(r.generation == next_generation(e.generation));
}

} // verus!
