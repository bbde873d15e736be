//! The world: allocator, registry, archetypes and the location table.
//!
//! The world owns every archetype and performs structural mutation
//! atomically from the caller's point of view. A location table maps each
//! live entity id to the archetype and row holding its data; it is the
//! sole lookup path from an entity to its components. The well-formedness
//! invariant ties the two tables together: every live id has a location,
//! every location names the row storing exactly that entity's handle, and
//! every stored row points back to its own location.

use vstd::prelude::*;

use crate::archetype::{swap_removed, Archetype, ArchetypeModel};
use crate::component::{
    collect_row_types, row_bytes, row_has_duplicate, row_types, same_set,
    same_type_set, ComponentDescriptor, ComponentRegistry, ComponentValue,
};
use crate::entity::{
    allocate_post, free_post, AllocatorModel, EcsError, Entity, EntityAllocator,
};

verus! {

/// Where a live entity's data lives: the archetype and the row inside it.
#[derive(Clone, Copy, PartialEq, Eq, Structural, Debug)]
pub struct EntityLocation {
    pub archetype: usize,
    pub row: usize,
}

/// Mathematical model of the whole world.
#[verifier::ext_equal]
pub struct WorldModel {
    pub alloc: AllocatorModel,
    pub registry: Seq<ComponentDescriptor>,
    pub archetypes: Seq<ArchetypeModel>,
    pub locations: Seq<Option<EntityLocation>>,
}

impl WorldModel {
    /// The location entry of id `id` is consistent: it names an existing
    /// row whose stored handle is exactly this id at its current
    /// generation.
    pub open spec fn located_ok(self, id: int) -> bool {
        let l = self.locations[id].unwrap();
        &&& l.archetype < self.archetypes.len()
        &&& l.row < self.archetypes[l.archetype as int].entities.len()
        &&& self.archetypes[l.archetype as int].entities[l.row as int] == Entity {
            id: id as usize,
            generation: self.alloc.generations[id],
        }
    }

    /// The shared part of the invariant: both tables are internally
    /// well formed, archetype type sets are unique, locations are
    /// consistent and every stored row points back to its location.
    pub open spec fn wf_base(self) -> bool {
        &&& self.alloc.wf()
        &&& forall|i: int, j: int|
            0 <= i < j < self.registry.len() ==> self.registry[i].type_id != self.registry[j].type_id
        &&& self.locations.len() == self.alloc.generations.len()
        &&& forall|a: int| 0 <= a < self.archetypes.len() ==> (#[trigger] self.archetypes[a]).wf()
        &&& forall|a: int, b: int|
            0 <= a < b < self.archetypes.len() ==> !same_type_set(
                self.archetypes[a].types,
                self.archetypes[b].types,
            )
        &&& forall|id: usize|
            id < self.locations.len() && (#[trigger] self.locations[id as int]) is Some
                ==> self.located_ok(id as int)
        &&& forall|a: int, r: int|
            #![trigger self.archetypes[a].entities[r]]
            0 <= a < self.archetypes.len() && 0 <= r < self.archetypes[a].entities.len() ==> {
                let e = self.archetypes[a].entities[r];
                &&& e.id < self.locations.len()
                &&& self.locations[e.id as int] == Some(
                    EntityLocation { archetype: a as usize, row: r as usize },
                )
                &&& e.generation == self.alloc.generations[e.id as int]
            }
    }

    /// Full well-formedness: additionally, exactly the live ids are
    /// located.
    pub open spec fn wf(self) -> bool {
        &&& self.wf_base()
        &&& forall|id: usize|
            id < self.locations.len() ==> (self.alloc.alive[id as int] <==> (
            #[trigger] self.locations[id as int]) is Some)
    }

    /// Mid-operation state: well formed except that live id `e.id` has no
    /// row yet (its previous row was detached, or none was attached yet).
    pub open spec fn wf_pending(self, e: Entity) -> bool {
        &&& self.wf_base()
        &&& self.live(e)
        &&& self.locations[e.id as int] is None
        &&& forall|id: usize|
            id < self.locations.len() && id != e.id ==> (self.alloc.alive[id as int] <==> (
            #[trigger] self.locations[id as int]) is Some)
    }

    /// A handle is valid iff its generation matches the allocator's
    /// current generation for a live id.
    pub open spec fn live(self, e: Entity) -> bool {
        self.alloc.live(e)
    }

    pub open spec fn loc_of(self, id: int) -> EntityLocation {
        self.locations[id].unwrap()
    }

    /// The archetype holding a live entity's data.
    pub open spec fn arch_of(self, e: Entity) -> ArchetypeModel {
        self.archetypes[self.loc_of(e.id as int).archetype as int]
    }

    /// The entity's component-type set, as the type list of its archetype.
    pub open spec fn type_set_of(self, e: Entity) -> Seq<u64> {
        self.arch_of(e).types
    }

    /// Whether a live entity carries component type `t`.
    pub open spec fn has_component(self, e: Entity, t: u64) -> bool {
        &&& self.live(e)
        &&& self.arch_of(e).has_type(t)
    }

    /// The byte block a live entity carries for component type `t`.
    pub open spec fn block_of(self, e: Entity, t: u64) -> Seq<u8> {
        self.arch_of(e).block(t, self.loc_of(e.id as int).row as int)
    }

    pub open spec fn empty() -> WorldModel {
        WorldModel {
            alloc: AllocatorModel::empty(),
            registry: Seq::empty(),
            archetypes: Seq::empty(),
            locations: Seq::empty(),
        }
    }
}

/// A live entity of `w0` is untouched in `w1`: still live, same component
/// types, byte-identical component values.
pub open spec fn entity_preserved(w0: WorldModel, w1: WorldModel, e: Entity) -> bool {
    &&& w1.live(e)
    &&& same_type_set(w1.type_set_of(e), w0.type_set_of(e))
    &&& forall|t: u64|
        w0.has_component(e, t) ==> w1.has_component(e, t) && w1.block_of(e, t) == w0.block_of(
            e,
            t,
        )
}

/// Every live entity other than `except` is untouched between `w0` and
/// `w1`.
pub open spec fn others_preserved(w0: WorldModel, w1: WorldModel, except: Entity) -> bool {
    forall|e2: Entity|
        #![trigger entity_preserved(w0, w1, e2)]
        #![trigger w0.live(e2)]
        w0.live(e2) && e2.id != except.id ==> entity_preserved(w0, w1, e2)
}

/// Owns the entity allocator, the component registry, the set of
/// archetypes and the entity location table.
pub struct World {
    alloc: EntityAllocator,
    registry: ComponentRegistry,
    archetypes: Vec<Archetype>,
    locations: Vec<Option<EntityLocation>>,
}

impl View for World {
    type V = WorldModel;

    closed spec fn view(&self) -> WorldModel {
        WorldModel {
            alloc: self.alloc@,
            registry: self.registry@,
            archetypes: self.archetypes@.map_values(|a: Archetype| a@),
            locations: self.locations@,
        }
    }
}

impl World {
    /// An empty world: no ids issued, nothing registered, no archetypes.
    pub fn new() -> (r: World)
        ensures
            r@ == WorldModel::empty(),
            r@.wf(),
    {
        let r = World {
            alloc: EntityAllocator::new(),
            registry: ComponentRegistry::new(),
            archetypes: Vec::new(),
            locations: Vec::new(),
        };
        proof {
            assert(r@.archetypes =~= Seq::<ArchetypeModel>::empty());
            assert(r@.locations =~= Seq::<Option<EntityLocation>>::empty());
        }
        r
    }

    /// Records a component type's descriptor; idempotent per type
    /// identity. Returns the descriptor stored for that type.
    pub fn register_component(&mut self, desc: ComponentDescriptor) -> (r: ComponentDescriptor)
        requires
            old(self)@.wf(),
        ensures
            final(self)@.wf(),
            final(self)@.alloc == old(self)@.alloc,
            final(self)@.archetypes == old(self)@.archetypes,
            final(self)@.locations == old(self)@.locations,
            r.type_id == desc.type_id,
            final(self)@.registry.contains(r),
            if crate::component::registered(old(self)@.registry, desc.type_id) {
                final(self)@.registry == old(self)@.registry
            } else {
                final(self)@.registry == old(self)@.registry.push(desc) && r == desc
            },
    {
        self.registry.register(desc)
    }

    /// Looks up the descriptor registered for a type identity.
    pub fn describe(&self, type_id: u64) -> (r: Option<ComponentDescriptor>)
        ensures
            match r {
                Some(d) => self@.registry.contains(d) && d.type_id == type_id,
                None => !crate::component::registered(self@.registry, type_id),
            },
    {
        self.registry.describe(type_id)
    }

    pub fn is_alive(&self, e: Entity) -> (r: bool)
        requires
            self@.wf_base(),
        ensures
            r == self@.live(e),
    {
        self.alloc.is_alive(e)
    }

    /// Find or create the archetype for a set of component types.
    ///
    /// The index it returns is stable: archetypes are never removed.
    pub fn get_archetype(&mut self, types: &Vec<u64>) -> (idx: usize)
        requires
            old(self)@.wf_base(),
            types@.no_duplicates(),
        ensures
            final(self)@.wf_base(),
            final(self)@.alloc == old(self)@.alloc,
            final(self)@.registry == old(self)@.registry,
            final(self)@.locations == old(self)@.locations,
            idx < final(self)@.archetypes.len(),
            same_type_set(final(self)@.archetypes[idx as int].types, types@),
            forall|a: int|
                0 <= a < old(self)@.archetypes.len() ==> final(self)@.archetypes[a] == old(
                    self,
                )@.archetypes[a],
            if exists|a: int|
                0 <= a < old(self)@.archetypes.len() && same_type_set(
                    #[trigger] old(self)@.archetypes[a].types,
                    types@,
                ) {
                final(self)@ == old(self)@ && idx < old(self)@.archetypes.len()
            } else {
                &&& final(self)@.archetypes.len() == old(self)@.archetypes.len() + 1
                &&& idx == old(self)@.archetypes.len()
                &&& final(self)@.archetypes[idx as int].types == types@
                &&& final(self)@.archetypes[idx as int].entities == Seq::<Entity>::empty()
            },
            old(self)@.wf() ==> final(self)@.wf(),
    {
        let n = self.archetypes.len();
        for a in 0..n
            invariant
                self@ == old(self)@,
                old(self)@.wf_base(),
                n == self@.archetypes.len(),
                types@.no_duplicates(),
                forall|k: int|
                    0 <= k < a ==> !same_type_set(
                        (#[trigger] self@.archetypes[k]).types,
                        types@,
                    ),
        {
            proof {
                assert(self@.archetypes[a as int] == self.archetypes@[a as int]@);
            }
            if same_set(self.archetypes[a].type_ids(), types) {
                proof {
                    assert(same_type_set(old(self)@.archetypes[a as int].types, types@));
                }
                return a;
            }
        }
        let fresh = Archetype::with_types(crate::component::copy_types(types));
        let ghost arches_pre = self.archetypes@;
        self.archetypes.push(fresh);
        proof {
            let v0 = old(self)@;
            let v1 = self@;
            assert forall|k: int| 0 <= k < v0.archetypes.len() implies v1.archetypes[k]
                == v0.archetypes[k] by {
                assert(self.archetypes@[k] == arches_pre[k]);
            }
            assert(v1.archetypes[v0.archetypes.len() as int] == fresh@);
            assert(v1.archetypes.len() == v0.archetypes.len() + 1);
            assert forall|k: int| 0 <= k < v1.archetypes.len() implies (
            #[trigger] v1.archetypes[k]).wf() by {
                if k < v0.archetypes.len() {
                    assert(v1.archetypes[k] == v0.archetypes[k]);
                } else {
                    assert(v1.archetypes[k] == fresh@);
                }
            }
            assert forall|a: int, b: int|
                0 <= a < b < v1.archetypes.len() implies !same_type_set(
                v1.archetypes[a].types,
                v1.archetypes[b].types,
            ) by {
                if b == v0.archetypes.len() {
                    assert(!same_type_set(v0.archetypes[a].types, types@));
                    assert(v1.archetypes[b].types == types@);
                }
            }
            assert forall|a: int, r: int|
                #![trigger v1.archetypes[a].entities[r]]
                0 <= a < v1.archetypes.len() && 0 <= r < v1.archetypes[a].entities.len() implies {
                let e = v1.archetypes[a].entities[r];
                &&& e.id < v1.locations.len()
                &&& v1.locations[e.id as int] == Some(
                    EntityLocation { archetype: a as usize, row: r as usize },
                )
                &&& e.generation == v1.alloc.generations[e.id as int]
            } by {
                assert(a < v0.archetypes.len());
                assert(v1.archetypes[a] == v0.archetypes[a]);
            }
            assert forall|id: usize|
                id < v1.locations.len() && (#[trigger] v1.locations[id as int]) is Some implies v1
                .located_ok(id as int) by {
                assert(v0.located_ok(id as int));
                let l = v0.locations[id as int].unwrap();
                assert(v1.archetypes[l.archetype as int] == v0.archetypes[l.archetype as int]);
            }
            assert(v1.alloc.wf());
            assert(v1.locations.len() == v1.alloc.generations.len());
            assert(v1.registry == v0.registry);
            assert(forall|i: int, j: int|
                0 <= i < j < v1.registry.len() ==> v1.registry[i].type_id
                    != v1.registry[j].type_id);
            assert(v1.wf_base());
        }
        n
    }

    /// Appends a pending entity's row to the archetype matching the row's
    /// type set (creating it if needed) and records the entity's location.
    fn attach_row(&mut self, e: Entity, row: Vec<ComponentValue>) -> (loc: EntityLocation)
        requires
            old(self)@.wf_pending(e),
            row_types(row@).no_duplicates(),
        ensures
            final(self)@.wf(),
            final(self)@.alloc == old(self)@.alloc,
            final(self)@.registry == old(self)@.registry,
            final(self)@.live(e),
            final(self)@.locations[e.id as int] == Some(loc),
            same_type_set(final(self)@.type_set_of(e), row_types(row@)),
            forall|i: int|
                0 <= i < row@.len() ==> final(self)@.block_of(e, (#[trigger] row@[i]).type_id)
                    == row@[i].bytes@,
            others_preserved(old(self)@, final(self)@, e),
    {
        let ghost v0 = self@;
        let types = collect_row_types(&row);
        let idx = self.get_archetype(&types);
        let ghost v1 = self@;
        let ghost arches_pre = self.archetypes@;
        proof {
            assert(v1.archetypes[idx as int] == self.archetypes@[idx as int]@);
        }
        self.archetypes[idx].push_row(e, &row);
        let ghost v2 = self@;
        proof {
            assert forall|k: int|
                0 <= k < v2.archetypes.len() && k != idx implies #[trigger] v2.archetypes[k]
                == v1.archetypes[k] by {
                assert(self.archetypes@[k] == arches_pre[k]);
            }
        }
        let row_idx = self.archetypes[idx].row_count() - 1;
        let loc = EntityLocation { archetype: idx, row: row_idx };
        self.locations[e.id] = Some(loc);
        proof {
            let v3 = self@;
            let arch1 = v1.archetypes[idx as int];
            let arch2 = v2.archetypes[idx as int];
            assert(arch2.types == arch1.types);
            assert(arch2.entities == arch1.entities.push(e));
            assert(row_idx as int == arch1.entities.len());
            // every located id still names the row holding its own handle
            assert forall|id: usize|
                id < v3.locations.len() && (#[trigger] v3.locations[id as int]) is Some implies v3
                .located_ok(id as int) by {
                if id == e.id {
                    assert(arch2.entities[row_idx as int] == e);
                    assert(e.generation == v3.alloc.generations[id as int]);
                } else {
                    assert(v0.locations[id as int] is Some);
                    assert(v1.located_ok(id as int));
                    let l = v1.locations[id as int].unwrap();
                    if l.archetype as int == idx {
                        assert(arch2.entities[l.row as int] == arch1.entities[l.row as int]);
                    } else {
                        assert(v3.archetypes[l.archetype as int] == v1.archetypes[l.archetype as int]);
                    }
                }
            }
            // every stored row still points back to its own location
            assert forall|a: int, r: int|
                #![trigger v3.archetypes[a].entities[r]]
                0 <= a < v3.archetypes.len() && 0 <= r < v3.archetypes[a].entities.len() implies {
                let e2 = v3.archetypes[a].entities[r];
                &&& e2.id < v3.locations.len()
                &&& v3.locations[e2.id as int] == Some(
                    EntityLocation { archetype: a as usize, row: r as usize },
                )
                &&& e2.generation == v3.alloc.generations[e2.id as int]
            } by {
                if a == idx && r == row_idx as int {
                    assert(v3.archetypes[a].entities[r] == e);
                } else {
                    let e2 = if a == idx {
                        arch1.entities[r]
                    } else {
                        v1.archetypes[a].entities[r]
                    };
                    assert(v3.archetypes[a].entities[r] == e2);
                    assert(v1.locations[e2.id as int] == Some(
                        EntityLocation { archetype: a as usize, row: r as usize },
                    ));
                    assert(e2.id != e.id);
                }
            }
            // archetype well-formedness and type-set uniqueness
            assert forall|k: int| 0 <= k < v3.archetypes.len() implies (
            #[trigger] v3.archetypes[k]).wf() by {
                if k != idx {
                    assert(v3.archetypes[k] == v1.archetypes[k]);
                }
            }
            assert forall|a: int, b: int|
                0 <= a < b < v3.archetypes.len() implies !same_type_set(
                v3.archetypes[a].types,
                v3.archetypes[b].types,
            ) by {
                assert(v3.archetypes[a].types == v1.archetypes[a].types);
                assert(v3.archetypes[b].types == v1.archetypes[b].types);
            }
            assert(v3.wf());
            // the new row carries exactly the supplied bytes
            assert forall|i: int|
                0 <= i < row@.len() implies v3.block_of(e, (#[trigger] row@[i]).type_id) == row@[i].bytes@ by {
                let t = row@[i].type_id;
                assert(row_types(row@)[i] == t);
                assert(row_types(row@).contains(t));
                assert(arch2.types.contains(t));
                let c = arch2.col_of(t);
                assert(arch2.types[c] == t);
                assert(arch2.columns[c] == arch1.columns[c].push(row_bytes(row@, arch1.types[c])));
                assert(arch1.columns[c].len() == arch1.entities.len());
                assert(arch2.columns[c][row_idx as int] == row_bytes(row@, t));
                crate::component::lemma_row_bytes_at(row@, t, i);
            }
            // other entities keep their types and bytes
            assert forall|e2: Entity|
                #![trigger entity_preserved(v0, v3, e2)]
                #![trigger v0.live(e2)]
                v0.live(e2) && e2.id != e.id implies entity_preserved(v0, v3, e2) by {
                assert(v0.locations[e2.id as int] is Some);
                assert(v0.located_ok(e2.id as int));
                let l = v0.locations[e2.id as int].unwrap();
                assert(v3.locations[e2.id as int] == v0.locations[e2.id as int]);
                let a0 = v0.archetypes[l.archetype as int];
                let a3 = v3.archetypes[l.archetype as int];
                assert(a0 == v1.archetypes[l.archetype as int]);
                assert(a3.types == a0.types);
                assert forall|t: u64| v0.has_component(e2, t) implies v3.has_component(e2, t)
                    && v3.block_of(e2, t) == v0.block_of(e2, t) by {
                    let c = a0.col_of(t);
                    assert(a0.types[c] == t);
                    if l.archetype as int == idx {
                        assert(a3.columns[c] == a0.columns[c].push(
                            row_bytes(row@, a0.types[c]),
                        ));
                        assert(l.row < a0.entities.len());
                        assert(a3.columns[c][l.row as int] == a0.columns[c][l.row as int]);
                    } else {
                        assert(a3 == a0);
                    }
                }
            }
        }
        loc
    }

    /// Removes a live entity's row by swap-remove, updating the location
    /// of whichever entity previously occupied the last row, and returns
    /// the removed row's contents. The entity is left live but unplaced.
    fn detach_row(&mut self, e: Entity) -> (row: Vec<ComponentValue>)
        requires
            old(self)@.wf(),
            old(self)@.live(e),
        ensures
            final(self)@.wf_pending(e),
            final(self)@.alloc == old(self)@.alloc,
            final(self)@.registry == old(self)@.registry,
            row_types(row@) == old(self)@.type_set_of(e),
            row_types(row@).no_duplicates(),
            forall|i: int|
                0 <= i < row@.len() ==> (#[trigger] row@[i]).bytes@ == old(self)@.block_of(
                    e,
                    row@[i].type_id,
                ),
            others_preserved(old(self)@, final(self)@, e),
    {
        let ghost v0 = self@;
        proof {
            assert(v0.locations[e.id as int] is Some);
            assert(v0.located_ok(e.id as int));
        }
        let l = match self.locations[e.id] {
            Some(l) => l,
            None => {
                proof {
                    assert(false);
                }
                EntityLocation { archetype: 0, row: 0 }
            },
        };
        let arch_count = self.archetypes.len();
        let ghost arch0 = v0.archetypes[l.archetype as int];
        proof {
            assert(arch_count == v0.archetypes.len());
            assert(v0.archetypes[l.archetype as int] == self.archetypes@[l.archetype as int]@);
            assert(arch0.entities[l.row as int] == Entity {
                id: e.id,
                generation: v0.alloc.generations[e.id as int],
            });
        }
        let last = self.archetypes[l.archetype].row_count() - 1;
        let moved = self.archetypes[l.archetype].entity_at(last);
        let ghost arches_pre = self.archetypes@;
        let row = self.archetypes[l.archetype].take_row(l.row);
        proof {
            assert forall|k: int|
                0 <= k < self@.archetypes.len() && k != l.archetype as int implies #[trigger] self@
                .archetypes[k] == v0.archetypes[k] by {
                assert(self.archetypes@[k] == arches_pre[k]);
            }
        }
        self.locations[e.id] = None;
        if l.row != last {
            proof {
                // the displaced entity is a different id: its location named
                // the last row, not the vacated one
                assert(arch0.entities[last as int].id < v0.locations.len());
                assert(v0.locations[moved.id as int] == Some(
                    EntityLocation { archetype: l.archetype, row: last },
                ));
                assert(moved.id != e.id);
            }
            self.locations[moved.id] = Some(EntityLocation { archetype: l.archetype, row: l.row });
        }
        proof {
            let v3 = self@;
            let arch3 = v3.archetypes[l.archetype as int];
            assert(arch3.types == arch0.types);
            assert(arch3.entities == swap_removed(arch0.entities, l.row as int));
            assert(arch3.entities.len() == last as int);
            // no row other than the vacated one held e or the moved entity
            assert forall|r: int|
                0 <= r < arch0.entities.len() && r != l.row implies (
                #[trigger] arch0.entities[r]).id != e.id by {
                assert(v0.locations[arch0.entities[r].id as int] == Some(
                    EntityLocation { archetype: l.archetype, row: r as usize },
                ));
            }
            assert forall|r: int|
                0 <= r < arch0.entities.len() && r != last as int implies (
                #[trigger] arch0.entities[r]).id != moved.id by {
                assert(v0.locations[arch0.entities[r].id as int] == Some(
                    EntityLocation { archetype: l.archetype, row: r as usize },
                ));
            }
            // locations still name the rows holding their own handles
            assert forall|id: usize|
                id < v3.locations.len() && (#[trigger] v3.locations[id as int]) is Some implies v3
                .located_ok(id as int) by {
                if l.row != last && id == moved.id {
                    assert(arch3.entities[l.row as int] == arch0.entities[last as int]);
                } else {
                    assert(v3.locations[id as int] == v0.locations[id as int]);
                    assert(v3.locations[e.id as int] is None);
                    assert(id != e.id);
                    assert(v0.located_ok(id as int));
                    let li = v0.locations[id as int].unwrap();
                    if li.archetype == l.archetype {
                        assert(arch0.entities[li.row as int].id == id);
                        assert(arch0.entities[l.row as int].id == e.id);
                        assert(li.row != l.row) by {
                            if li.row == l.row {
                                assert(id == e.id);
                            }
                        }
                        assert(li.row != last) by {
                            if li.row == last {
                                assert(arch0.entities[last as int].id == id);
                                assert(arch0.entities[last as int] == moved);
                                if l.row != last {
                                    assert(id == moved.id);
                                }
                            }
                        }
                        assert(arch3.entities[li.row as int] == arch0.entities[li.row as int]);
                    } else {
                        assert(v3.archetypes[li.archetype as int] == v0.archetypes[li.archetype as int]);
                    }
                }
            }
            // rows still point back to their own locations
            assert forall|a: int, r: int|
                #![trigger v3.archetypes[a].entities[r]]
                0 <= a < v3.archetypes.len() && 0 <= r < v3.archetypes[a].entities.len() implies {
                let e2 = v3.archetypes[a].entities[r];
                &&& e2.id < v3.locations.len()
                &&& v3.locations[e2.id as int] == Some(
                    EntityLocation { archetype: a as usize, row: r as usize },
                )
                &&& e2.generation == v3.alloc.generations[e2.id as int]
            } by {
                if a == l.archetype as int {
                    if r == l.row as int && l.row != last {
                        assert(v3.archetypes[a].entities[r] == arch0.entities[last as int]);
                        assert(v3.locations[moved.id as int] == Some(
                            EntityLocation { archetype: l.archetype, row: l.row },
                        ));
                    } else {
                        assert(r < last as int);
                        assert(r != l.row as int) by {
                            if r == l.row as int {
                                assert(l.row == last);
                            }
                        }
                        assert(v3.archetypes[a].entities[r] == arch0.entities[r]);
                        let e2 = arch0.entities[r];
                        assert(v0.locations[e2.id as int] == Some(
                            EntityLocation { archetype: a as usize, row: r as usize },
                        ));
                        assert(e2.id != e.id);
                        assert(e2.id != moved.id || l.row == last);
                        assert(v3.locations[e2.id as int] == v0.locations[e2.id as int]);
                    }
                } else {
                    assert(v3.archetypes[a] == v0.archetypes[a]);
                    let e2 = v0.archetypes[a].entities[r];
                    assert(v0.locations[e2.id as int] == Some(
                        EntityLocation { archetype: a as usize, row: r as usize },
                    ));
                    assert(a < arch_count as int);
                    assert(e2.id != e.id) by {
                        if e2.id == e.id {
                            assert(v0.locations[e.id as int] == Some(l));
                            assert(l.archetype == a as usize);
                            assert(a == l.archetype as int);
                        }
                    }
                    assert(e2.id != moved.id || l.row == last) by {
                        if e2.id == moved.id && l.row != last {
                            assert(v0.locations[moved.id as int] == Some(
                                EntityLocation { archetype: l.archetype, row: last },
                            ));
                            assert(l.archetype == a as usize);
                            assert(a == l.archetype as int);
                        }
                    }
                    assert(v3.locations[e2.id as int] == v0.locations[e2.id as int]);
                }
            }
            assert forall|k: int| 0 <= k < v3.archetypes.len() implies (
            #[trigger] v3.archetypes[k]).wf() by {
                if k != l.archetype as int {
                    assert(v3.archetypes[k] == v0.archetypes[k]);
                }
            }
            assert forall|a: int, b: int|
                0 <= a < b < v3.archetypes.len() implies !same_type_set(
                v3.archetypes[a].types,
                v3.archetypes[b].types,
            ) by {
                assert(v3.archetypes[a].types == v0.archetypes[a].types);
                assert(v3.archetypes[b].types == v0.archetypes[b].types);
            }
            assert forall|id: usize|
                id < v3.locations.len() && id != e.id implies (v3.alloc.alive[id as int] <==> (
                #[trigger] v3.locations[id as int]) is Some) by {
                if l.row != last && id == moved.id {
                    assert(v0.locations[id as int] is Some);
                } else {
                    assert(v3.locations[id as int] == v0.locations[id as int]);
                }
            }
            assert(v3.alloc == v0.alloc);
            assert(v3.registry == v0.registry);
            assert(v3.locations.len() == v3.alloc.generations.len());
            assert(v3.live(e));
            assert(v3.locations[e.id as int] is None);
            assert(v3.wf_base());
            assert(v3.wf_pending(e));
            // the returned row is e's old row
            assert(row_types(row@) == arch0.types);
            assert forall|i: int|
                0 <= i < row@.len() implies (#[trigger] row@[i]).bytes@ == v0.block_of(
                e,
                row@[i].type_id,
            ) by {
                let t = row@[i].type_id;
                assert(row@[i].type_id == arch0.types[i]);
                assert(arch0.types.contains(t)) by {
                    assert(arch0.types[i] == t);
                }
                let c = arch0.col_of(t);
                assert(arch0.types[c] == t);
                assert(c == i);
                assert(row@[i].bytes@ == arch0.columns[i][l.row as int]);
            }
            // other entities keep their types and bytes
            assert forall|e2: Entity|
                #![trigger entity_preserved(v0, v3, e2)]
                #![trigger v0.live(e2)]
                v0.live(e2) && e2.id != e.id implies entity_preserved(v0, v3, e2) by {
                assert(v0.locations[e2.id as int] is Some);
                assert(v0.located_ok(e2.id as int));
                let li = v0.locations[e2.id as int].unwrap();
                let a0 = v0.archetypes[li.archetype as int];
                let a3 = v3.archetypes[li.archetype as int];
                assert(a3.types == a0.types);
                let row3 = if l.row != last && e2.id == moved.id {
                    l.row as int
                } else {
                    li.row as int
                };
                assert(v3.locations[e2.id as int].unwrap().row as int == row3);
                assert(v3.locations[e2.id as int].unwrap().archetype == li.archetype);
                assert forall|t: u64| v0.has_component(e2, t) implies v3.has_component(e2, t)
                    && v3.block_of(e2, t) == v0.block_of(e2, t) by {
                    let c = a0.col_of(t);
                    assert(a0.types[c] == t);
                    if li.archetype == l.archetype {
                        assert(a3.columns[c] == swap_removed(a0.columns[c], l.row as int));
                        assert(a0.columns[c].len() == arch0.entities.len());
                        if l.row != last && e2.id == moved.id {
                            assert(a3.columns[c][l.row as int] == a0.columns[c][last as int]);
                            assert(li.row == last);
                        } else {
                            assert(li.row != l.row);
                            assert(li.row != last || l.row == last);
                            if li.row == last {
                            } else {
                                assert(a3.columns[c][li.row as int] == a0.columns[c][li.row as int]);
                            }
                        }
                    } else {
                        assert(a3 == a0);
                    }
                }
            }
        }
        row
    }

    /// How many archetypes exist (archetypes are created lazily and never
    /// removed).
    pub fn archetype_count(&self) -> (r: usize)
        ensures
            r == self@.archetypes.len(),
    {
        self.archetypes.len()
    }

    /// The archetype at a stable index.
    pub fn archetype_at(&self, idx: usize) -> (r: &Archetype)
        requires
            idx < self@.archetypes.len(),
        ensures
            r@ == self@.archetypes[idx as int],
    {
        proof {
            assert(self@.archetypes[idx as int] == self.archetypes@[idx as int]@);
        }
        &self.archetypes[idx]
    }

    /// Where a live entity's data lives; `None` for a stale or unknown
    /// handle.
    pub fn location_of(&self, e: Entity) -> (r: Option<EntityLocation>)
        requires
            self@.wf(),
        ensures
            match r {
                Some(l) => self@.live(e) && self@.locations[e.id as int] == Some(l),
                None => !self@.live(e),
            },
    {
        if self.alloc.is_alive(e) {
            self.locations[e.id]
        } else {
            None
        }
    }

    /// Whether a live entity carries component type `type_id`.
    pub fn has_component(&self, e: Entity, type_id: u64) -> (r: bool)
        requires
            self@.wf(),
        ensures
            r == self@.has_component(e, type_id),
    {
        if !self.alloc.is_alive(e) {
            return false;
        }
        let l = match self.locations[e.id] {
            Some(l) => l,
            None => {
                proof {
                    assert(false);
                }
                EntityLocation { archetype: 0, row: 0 }
            },
        };
        proof {
            assert(self@.located_ok(e.id as int));
            assert(self@.archetypes[l.archetype as int] == self.archetypes@[l.archetype as int]@);
        }
        match self.archetypes[l.archetype].find_column(type_id) {
            Some(_) => true,
            None => false,
        }
    }

    /// A copy of the byte block a live entity carries for a component
    /// type, interpreted through the type identity guard.
    pub fn get_component(&self, e: Entity, type_id: u64) -> (r: Option<Vec<u8>>)
        requires
            self@.wf(),
        ensures
            match r {
                Some(b) => self@.has_component(e, type_id) && b@ == self@.block_of(e, type_id),
                None => !self@.has_component(e, type_id),
            },
    {
        if !self.alloc.is_alive(e) {
            return None;
        }
        let l = match self.locations[e.id] {
            Some(l) => l,
            None => {
                proof {
                    assert(false);
                }
                EntityLocation { archetype: 0, row: 0 }
            },
        };
        proof {
            assert(self@.located_ok(e.id as int));
            assert(self@.archetypes[l.archetype as int] == self.archetypes@[l.archetype as int]@);
        }
        match self.archetypes[l.archetype].find_column(type_id) {
            Some(c) => {
                proof {
                    assert(self@.archetypes[l.archetype as int].columns[c as int].len()
                        == self@.archetypes[l.archetype as int].entities.len());
                }
                Some(self.archetypes[l.archetype].block_at(c, l.row))
            },
            None => None,
        }
    }

    /// Creates an entity carrying the given component values, placed in
    /// the archetype matching their type set.
    ///
    /// Rejects a row naming some component type twice; fails only then or
    /// when the id space is exhausted.
    pub fn spawn(&mut self, components: Vec<ComponentValue>) -> (r: Result<Entity, EcsError>)
        requires
            old(self)@.wf(),
        ensures
            final(self)@.wf(),
            final(self)@.registry == old(self)@.registry,
            match r {
                Ok(e) => {
                    &&& row_types(components@).no_duplicates()
                    &&& allocate_post(old(self)@.alloc, final(self)@.alloc, e)
                    &&& !old(self)@.live(e)
                    &&& final(self)@.live(e)
                    &&& same_type_set(final(self)@.type_set_of(e), row_types(components@))
                    &&& forall|i: int|
                        0 <= i < components@.len() ==> final(self)@.block_of(
                            e,
                            (#[trigger] components@[i]).type_id,
                        ) == components@[i].bytes@
                    &&& others_preserved(old(self)@, final(self)@, e)
                },
                Err(err) => {
                    &&& final(self)@ == old(self)@
                    &&& (err == EcsError::DuplicateComponentType <==> !row_types(
                        components@,
                    ).no_duplicates())
                    &&& (err == EcsError::DuplicateComponentType || err
                        == EcsError::AllocatorExhausted)
                    &&& (err == EcsError::AllocatorExhausted ==> old(self)@.alloc.free_ids.len()
                        == 0 && old(self)@.alloc.generations.len() == usize::MAX)
                },
            },
    {
        if row_has_duplicate(&components) {
            return Err(EcsError::DuplicateComponentType);
        }
        let ghost v0 = self@;
        let e = match self.alloc.allocate() {
            Ok(e) => e,
            Err(err) => {
                return Err(err);
            },
        };
        if e.id == self.locations.len() {
            self.locations.push(None);
        }
        let ghost v1 = self@;
        proof {
            assert(v1.locations.len() == v1.alloc.generations.len());
            assert(v1.archetypes == v0.archetypes);
            assert forall|id: usize|
                id < v1.locations.len() && (#[trigger] v1.locations[id as int]) is Some implies v1
                .located_ok(id as int) by {
                assert(id < v0.locations.len());
                assert(v1.locations[id as int] == v0.locations[id as int]);
                assert(v0.located_ok(id as int));
                assert(id != e.id);
                assert(v1.alloc.generations[id as int] == v0.alloc.generations[id as int]);
            }
            assert forall|a: int, r: int|
                #![trigger v1.archetypes[a].entities[r]]
                0 <= a < v1.archetypes.len() && 0 <= r < v1.archetypes[a].entities.len() implies {
                let e2 = v1.archetypes[a].entities[r];
                &&& e2.id < v1.locations.len()
                &&& v1.locations[e2.id as int] == Some(
                    EntityLocation { archetype: a as usize, row: r as usize },
                )
                &&& e2.generation == v1.alloc.generations[e2.id as int]
            } by {
                let e2 = v0.archetypes[a].entities[r];
                assert(v0.locations[e2.id as int] == Some(
                    EntityLocation { archetype: a as usize, row: r as usize },
                ));
                assert(e2.id != e.id);
                assert(v1.alloc.generations[e2.id as int] == v0.alloc.generations[e2.id as int]);
            }
            assert forall|id: usize|
                id < v1.locations.len() && id != e.id implies (v1.alloc.alive[id as int] <==> (
                #[trigger] v1.locations[id as int]) is Some) by {
                assert(id < v0.locations.len());
                assert(v1.locations[id as int] == v0.locations[id as int]);
                assert(v1.alloc.alive[id as int] == v0.alloc.alive[id as int]);
            }
            assert(v1.locations[e.id as int] is None) by {
                if e.id < v0.locations.len() {
                    assert(!v0.alloc.alive[e.id as int]);
                }
            }
            assert(v1.alloc.wf());
            assert(v1.live(e));
            assert(v1.locations.len() == v1.alloc.generations.len());
            assert(v1.registry == v0.registry);
            assert(forall|a: int|
                0 <= a < v1.archetypes.len() ==> (#[trigger] v1.archetypes[a]).wf());
            assert(forall|a: int, b: int|
                0 <= a < b < v1.archetypes.len() ==> !same_type_set(
                    v1.archetypes[a].types,
                    v1.archetypes[b].types,
                ));
            assert(v1.wf_base());
            assert(v1.wf_pending(e));
        }
        self.attach_row(e, components);
        proof {
            let v2 = self@;
            assert forall|e2: Entity|
                #![trigger entity_preserved(v0, v2, e2)]
                #![trigger v0.live(e2)]
                v0.live(e2) && e2.id != e.id implies entity_preserved(v0, v2, e2) by {
                assert(v1.live(e2));
                assert(entity_preserved(v1, v2, e2));
                assert(v1.locations[e2.id as int] == v0.locations[e2.id as int]);
                assert(v1.archetypes == v0.archetypes);
                assert(v0.type_set_of(e2) == v1.type_set_of(e2));
                assert forall|t: u64| v0.has_component(e2, t) implies v2.has_component(e2, t)
                    && v2.block_of(e2, t) == v0.block_of(e2, t) by {
                    assert(v1.has_component(e2, t));
                    assert(v1.block_of(e2, t) == v0.block_of(e2, t));
                }
            }
        }
        Ok(e)
    }

    /// Destroys a live entity: removes its row by swap-remove, bumps the
    /// id's generation and recycles the id. Fails only on a stale or
    /// unknown handle.
    pub fn despawn(&mut self, e: Entity) -> (r: Result<(), EcsError>)
        requires
            old(self)@.wf(),
        ensures
            final(self)@.wf(),
            final(self)@.registry == old(self)@.registry,
            match r {
                Ok(()) => {
                    &&& old(self)@.live(e)
                    &&& free_post(old(self)@.alloc, final(self)@.alloc, e)
                    &&& !final(self)@.live(e)
                    &&& others_preserved(old(self)@, final(self)@, e)
                },
                Err(err) => {
                    &&& err == EcsError::InvalidEntity
                    &&& !old(self)@.live(e)
                    &&& final(self)@ == old(self)@
                },
            },
    {
        if !self.alloc.is_alive(e) {
            return Err(EcsError::InvalidEntity);
        }
        let ghost v0 = self@;
        let _row = self.detach_row(e);
        let ghost v1 = self@;
        let res = self.alloc.free(e);
        proof {
            if res is Err {
                assert(v1.live(e));
                assert(false);
            }
        }
        proof {
            let v2 = self@;
            assert(v2.locations == v1.locations);
            assert(v2.archetypes == v1.archetypes);
            assert forall|id: usize|
                id < v2.locations.len() && (#[trigger] v2.locations[id as int]) is Some implies v2
                .located_ok(id as int) by {
                assert(v1.located_ok(id as int));
                assert(id != e.id);
                assert(v2.alloc.generations[id as int] == v1.alloc.generations[id as int]);
            }
            assert forall|a: int, r: int|
                #![trigger v2.archetypes[a].entities[r]]
                0 <= a < v2.archetypes.len() && 0 <= r < v2.archetypes[a].entities.len() implies {
                let e2 = v2.archetypes[a].entities[r];
                &&& e2.id < v2.locations.len()
                &&& v2.locations[e2.id as int] == Some(
                    EntityLocation { archetype: a as usize, row: r as usize },
                )
                &&& e2.generation == v2.alloc.generations[e2.id as int]
            } by {
                let e2 = v1.archetypes[a].entities[r];
                assert(v1.locations[e2.id as int] == Some(
                    EntityLocation { archetype: a as usize, row: r as usize },
                ));
                assert(e2.id != e.id);
                assert(v2.alloc.generations[e2.id as int] == v1.alloc.generations[e2.id as int]);
            }
            assert forall|id: usize|
                id < v2.locations.len() implies (v2.alloc.alive[id as int] <==> (
                #[trigger] v2.locations[id as int]) is Some) by {
                if id != e.id {
                    assert(v1.alloc.alive[id as int] <==> v1.locations[id as int] is Some);
                } else {
                    assert(v2.locations[id as int] is None);
                    assert(!v2.alloc.alive[id as int]);
                }
            }
            assert(v2.wf());
            assert forall|e2: Entity|
                #![trigger entity_preserved(v0, v2, e2)]
                #![trigger v0.live(e2)]
                v0.live(e2) && e2.id != e.id implies entity_preserved(v0, v2, e2) by {
                assert(entity_preserved(v0, v1, e2));
                assert(v1.live(e2));
                assert(v2.live(e2));
                assert(v2.locations[e2.id as int] == v1.locations[e2.id as int]);
                assert(v2.archetypes == v1.archetypes);
                assert forall|t: u64| v0.has_component(e2, t) implies v2.has_component(e2, t)
                    && v2.block_of(e2, t) == v0.block_of(e2, t) by {
                    assert(v1.has_component(e2, t));
                    assert(v1.block_of(e2, t) == v0.block_of(e2, t));
                }
            }
        }
        Ok(())
    }

    /// The type identity an `add` option carries, if any.
    pub open spec fn added_type(add: Option<ComponentValue>) -> Option<u64> {
        match add {
            Some(cv) => Some(cv.type_id),
            None => None,
        }
    }

    /// Relocates a live entity to the archetype for the target set
    /// `current set + added type - removed type`, copying every component
    /// present in both sets byte for byte.
    ///
    /// Fails with `InvalidEntity` on a stale or unknown handle, and with
    /// `DuplicateComponentType` when the added type is already present and
    /// not simultaneously removed; succeeds on every other input.
    pub fn move_entity(
        &mut self,
        e: Entity,
        add: Option<ComponentValue>,
        remove: Option<u64>,
    ) -> (r: Result<EntityLocation, EcsError>)
        requires
            old(self)@.wf(),
        ensures
            final(self)@.wf(),
            final(self)@.registry == old(self)@.registry,
            match r {
                Ok(loc) => {
                    &&& old(self)@.live(e)
                    &&& (match add {
                        Some(cv) => remove == Some(cv.type_id) || !old(self)@.has_component(
                            e,
                            cv.type_id,
                        ),
                        None => true,
                    })
                    &&& final(self)@.alloc == old(self)@.alloc
                    &&& final(self)@.live(e)
                    &&& final(self)@.locations[e.id as int] == Some(loc)
                    &&& forall|t: u64|
                        final(self)@.has_component(e, t) <==> ((old(self)@.has_component(e, t)
                            || Self::added_type(add) == Some(t)) && remove != Some(t))
                    &&& forall|t: u64|
                        old(self)@.has_component(e, t) && final(self)@.has_component(e, t)
                            && Self::added_type(add) != Some(t) ==> final(self)@.block_of(e, t)
                            == old(self)@.block_of(e, t)
                    &&& (match add {
                        Some(cv) => remove != Some(cv.type_id) ==> final(self)@.block_of(
                            e,
                            cv.type_id,
                        ) == cv.bytes@,
                        None => true,
                    })
                    &&& others_preserved(old(self)@, final(self)@, e)
                },
                Err(err) => {
                    &&& final(self)@ == old(self)@
                    &&& (err == EcsError::InvalidEntity <==> !old(self)@.live(e))
                    &&& (err == EcsError::DuplicateComponentType <==> old(self)@.live(e)
                        && (match add {
                        Some(cv) => old(self)@.has_component(e, cv.type_id) && remove != Some(
                            cv.type_id,
                        ),
                        None => false,
                    }))
                    &&& (err == EcsError::InvalidEntity || err == EcsError::DuplicateComponentType)
                },
            },
    {
        if !self.alloc.is_alive(e) {
            return Err(EcsError::InvalidEntity);
        }
        let removes_added = match (&add, &remove) {
            (Some(cv), Some(rt)) => cv.type_id == *rt,
            _ => false,
        };
        if let Some(cv) = &add {
            if !removes_added && self.has_component(e, cv.type_id) {
                return Err(EcsError::DuplicateComponentType);
            }
        }
        let ghost v0 = self@;
        let row = self.detach_row(e);
        let ghost v1 = self@;
        let mut kept: Vec<ComponentValue> = Vec::new();
        let n = row.len();
        proof {
            assert(row_types(kept@) =~= Seq::<u64>::empty());
            assert(row_types(row@).take(0) =~= Seq::<u64>::empty());
        }
        for i in 0..n
            invariant
                n == row@.len(),
                row_types(row@).no_duplicates(),
                row_types(kept@).no_duplicates(),
                forall|t: u64|
                    row_types(kept@).contains(t) <==> (row_types(row@).take(i as int).contains(t)
                        && remove != Some(t)),
                forall|k: int|
                    0 <= k < kept@.len() ==> row_types(row@).contains(
                        (#[trigger] kept@[k]).type_id,
                    ) && kept@[k].bytes@ == row_bytes(row@, kept@[k].type_id),
        {
            let ghost kept_entry = kept@;
            let keep = match remove {
                Some(rt) => row[i].type_id != rt,
                None => true,
            };
            proof {
                assert(row_types(row@)[i as int] == row@[i as int].type_id);
                assert forall|t: u64|
                    row_types(row@).take(i + 1).contains(t) <==> (row_types(row@).take(
                    i as int,
                ).contains(t) || t == row@[i as int].type_id) by {
                    assert(row_types(row@).take(i + 1) =~= row_types(row@).take(i as int).push(
                        row_types(row@)[i as int],
                    ));
                    if row_types(row@).take(i as int).contains(t) {
                        let k = choose|k: int|
                            0 <= k < i && row_types(row@).take(i as int)[k] == t;
                        assert(row_types(row@).take(i + 1)[k] == t);
                    }
                    if t == row@[i as int].type_id {
                        assert(row_types(row@).take(i + 1)[i as int] == t);
                    }
                    if row_types(row@).take(i + 1).contains(t) {
                        let k = choose|k: int|
                            0 <= k < i + 1 && (#[trigger] row_types(row@).take(i + 1)[k]) == t;
                        if k < i {
                            assert(row_types(row@).take(i as int)[k] == t);
                        }
                    }
                }
                assert(!row_types(kept@).contains(row@[i as int].type_id)) by {
                    if row_types(kept@).contains(row@[i as int].type_id) {
                        let k = choose|k: int|
                            0 <= k < i && row_types(row@).take(i as int)[k] == row@[i as int].type_id;
                        assert(row_types(row@)[k] == row_types(row@)[i as int]);
                    }
                }
            }
            if keep {
                let ghost kept_pre = kept@;
                kept.push(ComponentValue {
                    type_id: row[i].type_id,
                    bytes: crate::component::copy_bytes(&row[i].bytes),
                });
                proof {
                    assert(row_types(kept@) =~= row_types(kept_pre).push(row@[i as int].type_id));
                    assert forall|p: int, q: int|
                        0 <= p < q < row_types(kept@).len() implies row_types(kept@)[p]
                            != row_types(kept@)[q] by {
                        if q == row_types(kept@).len() - 1 {
                            assert(row_types(kept_pre)[p] == row_types(kept@)[p]);
                            assert(row_types(kept_pre).contains(row_types(kept@)[p]));
                        }
                    }
                    assert forall|t: u64|
                        row_types(kept@).contains(t) <==> (row_types(kept_pre).contains(t) || t
                            == row@[i as int].type_id) by {
                        if row_types(kept_pre).contains(t) {
                            let k = choose|k: int|
                                0 <= k < row_types(kept_pre).len() && row_types(kept_pre)[k] == t;
                            assert(row_types(kept@)[k] == t);
                        }
                        if t == row@[i as int].type_id {
                            assert(row_types(kept@)[row_types(kept@).len() - 1] == t);
                        }
                        if row_types(kept@).contains(t) {
                            let k = choose|k: int|
                                0 <= k < row_types(kept@).len() && row_types(kept@)[k] == t;
                            if k < row_types(kept@).len() - 1 {
                                assert(row_types(kept_pre)[k] == t);
                            }
                        }
                    }
                    crate::component::lemma_row_bytes_at(row@, row@[i as int].type_id, i as int);
                    assert(kept@[kept@.len() - 1].bytes@ == row_bytes(
                        row@,
                        kept@[kept@.len() - 1].type_id,
                    ));
                    assert forall|k: int|
                        0 <= k < kept@.len() implies row_types(row@).contains(
                        (#[trigger] kept@[k]).type_id,
                    ) && kept@[k].bytes@ == row_bytes(row@, kept@[k].type_id) by {
                        if k < kept@.len() - 1 {
                            assert(kept@[k] == kept_pre[k]);
                        }
                    }
                }
            }
            proof {
                assert(keep ==> remove != Some(row@[i as int].type_id));
                assert forall|t: u64|
                    row_types(kept@).contains(t) <==> (row_types(row@).take(i + 1).contains(t)
                        && remove != Some(t)) by {
                    assert(row_types(kept_entry).contains(t) <==> (row_types(row@).take(
                        i as int,
                    ).contains(t) && remove != Some(t)));
                    assert(row_types(row@).take(i + 1).contains(t) <==> (row_types(row@).take(
                        i as int,
                    ).contains(t) || t == row@[i as int].type_id));
                    if keep {
                        assert(row_types(kept@).contains(t) <==> (row_types(kept_entry).contains(
                            t,
                        ) || t == row@[i as int].type_id));
                    } else {
                        assert(kept@ == kept_entry);
                    }
                }
            }
        }
        let ghost loop_kept = kept@;
        proof {
            assert(row_types(row@).take(n as int) =~= row_types(row@));
        }
        let added = match add {
            Some(cv) => {
                let keep_added = match remove {
                    Some(rt) => cv.type_id != rt,
                    None => true,
                };
                if keep_added {
                    proof {
                        assert(!row_types(kept@).contains(cv.type_id)) by {
                            if row_types(kept@).contains(cv.type_id) {
                                assert(row_types(row@).contains(cv.type_id));
                                assert(v0.has_component(e, cv.type_id));
                            }
                        }
                    }
                    let ghost kept_pre = kept@;
                    let ghost cv_bytes = cv.bytes@;
                    let ghost cv_t = cv.type_id;
                    kept.push(cv);
                    proof {
                        assert(row_types(kept@) =~= row_types(kept_pre).push(cv_t));
                        assert forall|t: u64|
                            row_types(kept@).contains(t) <==> (row_types(kept_pre).contains(t)
                                || t == cv_t) by {
                            if row_types(kept_pre).contains(t) {
                                let k = choose|k: int|
                                    0 <= k < row_types(kept_pre).len() && row_types(
                                        kept_pre,
                                    )[k] == t;
                                assert(row_types(kept@)[k] == t);
                            }
                            if t == cv_t {
                                assert(row_types(kept@)[row_types(kept@).len() - 1] == t);
                            }
                            if row_types(kept@).contains(t) {
                                let k = choose|k: int|
                                    0 <= k < row_types(kept@).len() && row_types(kept@)[k] == t;
                                if k < row_types(kept@).len() - 1 {
                                    assert(row_types(kept_pre)[k] == t);
                                }
                            }
                        }
                        assert forall|p: int, q: int|
                            0 <= p < q < row_types(kept@).len() implies row_types(kept@)[p]
                                != row_types(kept@)[q] by {
                            if q == row_types(kept@).len() - 1 {
                                assert(row_types(kept_pre)[p] == row_types(kept@)[p]);
                                assert(row_types(kept_pre).contains(row_types(kept@)[p]));
                            }
                        }
                        assert(kept@[kept@.len() - 1].type_id == cv_t);
                        assert(kept@[kept@.len() - 1].bytes@ == cv_bytes);
                    }
                    true
                } else {
                    false
                }
            },
            None => false,
        };
        let ghost kept_view = kept@;
        let loc = self.attach_row(e, kept);
        proof {
            let v2 = self@;
            assert(row_types(row@).take(n as int) == row_types(row@));
            // which types the entity now has
            assert forall|t: u64|
                v2.has_component(e, t) <==> ((v0.has_component(e, t) || Self::added_type(add)
                    == Some(t)) && remove != Some(t)) by {
                assert(v2.has_component(e, t) <==> row_types(kept_view).contains(t));
                assert(row_types(row@) == v0.type_set_of(e));
                assert(v0.has_component(e, t) <==> row_types(row@).contains(t));
                assert(row_types(loop_kept).contains(t) <==> (row_types(row@).contains(t)
                    && remove != Some(t)));
                if added {
                    assert(row_types(kept_view).contains(t) <==> (row_types(loop_kept).contains(
                        t,
                    ) || Self::added_type(add) == Some(t)));
                    assert(Self::added_type(add) is Some);
                    assert(remove != Self::added_type(add));
                } else {
                    assert(kept_view == loop_kept);
                    if Self::added_type(add) == Some(t) {
                        assert(remove == Some(t));
                    }
                }
            }
            // components present before and after are byte-identical
            assert forall|t: u64|
                v0.has_component(e, t) && v2.has_component(e, t) && Self::added_type(add) != Some(
                    t,
                ) implies v2.block_of(e, t) == v0.block_of(e, t) by {
                assert(row_types(kept_view).contains(t));
                let k = row_types(kept_view).index_of(t);
                assert(row_types(kept_view)[k] == t);
                assert(kept_view[k].type_id == t);
                assert(v2.block_of(e, t) == kept_view[k].bytes@) by {
                    assert(v2.block_of(e, kept_view[k].type_id) == kept_view[k].bytes@);
                }
                assert(k < kept_view.len());
                if added && k == kept_view.len() - 1 {
                    assert(Self::added_type(add) == Some(t));
                }
                assert(kept_view[k] == loop_kept[k]);
                assert(kept_view[k].bytes@ == row_bytes(row@, t));
                let j = row_types(row@).index_of(t);
                assert(row_types(row@).contains(t));
                assert(row_types(row@)[j] == t);
                assert(row@[j].type_id == t);
                assert(row@[j].bytes@ == v0.block_of(e, row@[j].type_id));
                assert(row_bytes(row@, t) == row@[j].bytes@);
            }
            if Self::added_type(add) is Some && remove != Self::added_type(add) {
                assert(added);
                assert(v2.block_of(e, kept_view[kept_view.len() - 1].type_id)
                    == kept_view[kept_view.len() - 1].bytes@);
            }
            // entities other than e are untouched across detach and attach
            assert forall|e2: Entity|
                #![trigger entity_preserved(v0, v2, e2)]
                #![trigger v0.live(e2)]
                v0.live(e2) && e2.id != e.id implies entity_preserved(v0, v2, e2) by {
                assert(entity_preserved(v0, v1, e2));
                assert(v1.live(e2));
                assert(entity_preserved(v1, v2, e2));
                assert forall|t: u64| v0.has_component(e2, t) implies v2.has_component(e2, t)
                    && v2.block_of(e2, t) == v0.block_of(e2, t) by {
                    assert(v1.has_component(e2, t));
                    assert(v1.block_of(e2, t) == v0.block_of(e2, t));
                }
            }
        }
        Ok(loc)
    }

    /// Gives a live entity one more component, moving it to the archetype
    /// for its extended type set; every component it already carried is
    /// preserved byte for byte.
    pub fn add_component(&mut self, e: Entity, component: ComponentValue) -> (r: Result<
        (),
        EcsError,
    >)
        requires
            old(self)@.wf(),
        ensures
            final(self)@.wf(),
            final(self)@.registry == old(self)@.registry,
            match r {
                Ok(()) => {
                    &&& old(self)@.live(e)
                    &&& final(self)@.alloc == old(self)@.alloc
                    &&& final(self)@.live(e)
                    &&& !old(self)@.has_component(e, component.type_id)
                    &&& forall|t: u64|
                        final(self)@.has_component(e, t) <==> (old(self)@.has_component(e, t) || t
                            == component.type_id)
                    &&& final(self)@.block_of(e, component.type_id) == component.bytes@
                    &&& forall|t: u64|
                        old(self)@.has_component(e, t) ==> final(self)@.block_of(e, t) == old(
                            self,
                        )@.block_of(e, t)
                    &&& others_preserved(old(self)@, final(self)@, e)
                },
                Err(err) => {
                    &&& final(self)@ == old(self)@
                    &&& (err == EcsError::InvalidEntity <==> !old(self)@.live(e))
                    &&& (err == EcsError::DuplicateComponentType <==> old(self)@.live(e) && old(
                        self,
                    )@.has_component(e, component.type_id))
                    &&& (err == EcsError::InvalidEntity || err == EcsError::DuplicateComponentType)
                },
            },
    {
        match self.move_entity(e, Some(component), None) {
            Ok(_) => Ok(()),
            Err(err) => Err(err),
        }
    }

    /// Takes one component type away from a live entity, moving it to the
    /// archetype for the narrowed set; the removed value is discarded and
    /// every other component is preserved byte for byte. Removing a type
    /// the entity does not carry leaves it unchanged.
    pub fn remove_component(&mut self, e: Entity, type_id: u64) -> (r: Result<(), EcsError>)
        requires
            old(self)@.wf(),
        ensures
            final(self)@.wf(),
            final(self)@.registry == old(self)@.registry,
            match r {
                Ok(()) => {
                    &&& old(self)@.live(e)
                    &&& final(self)@.alloc == old(self)@.alloc
                    &&& final(self)@.live(e)
                    &&& forall|t: u64|
                        final(self)@.has_component(e, t) <==> (old(self)@.has_component(e, t) && t
                            != type_id)
                    &&& forall|t: u64|
                        old(self)@.has_component(e, t) && t != type_id ==> final(self)@.block_of(
                            e,
                            t,
                        ) == old(self)@.block_of(e, t)
                    &&& others_preserved(old(self)@, final(self)@, e)
                },
                Err(err) => {
                    &&& err == EcsError::InvalidEntity
                    &&& !old(self)@.live(e)
                    &&& final(self)@ == old(self)@
                },
            },
    {
        match self.move_entity(e, None, Some(type_id)) {
            Ok(_) => Ok(()),
            Err(err) => {
                proof {
                    assert(err == EcsError::InvalidEntity);
                }
                Err(err)
            },
        }
    }
}

/// Law: adding a component and then removing it leaves the entity's
/// original components byte-identical, and its component-type set as it
/// was.
///
/// `w0 -> w1` relates as a successful `add_component(e, cv)` does, and
/// `w1 -> w2` as a successful `remove_component(e, cv.type_id)` does; the
/// hypotheses are exactly those calls' postconditions.
pub proof fn lemma_add_remove_round_trip(
    w0: WorldModel,
    w1: WorldModel,
    w2: WorldModel,
    e: Entity,
    added: u64,
)
    requires
        !w0.has_component(e, added),
        forall|t: u64| w1.has_component(e, t) <==> (w0.has_component(e, t) || t == added),
        forall|t: u64|
            w0.has_component(e, t) ==> w1.block_of(e, t) == w0.block_of(e, t),
        forall|t: u64| w2.has_component(e, t) <==> (w1.has_component(e, t) && t != added),
        forall|t: u64|
            w1.has_component(e, t) && t != added ==> w2.block_of(e, t) == w1.block_of(e, t),
    ensures
        forall|t: u64| w2.has_component(e, t) <==> w0.has_component(e, t),
        forall|t: u64| w0.has_component(e, t) ==> w2.block_of(e, t) == w0.block_of(e, t),
{
}

/// Law: in every well-formed world, every component column of every
/// archetype has exactly as many byte blocks as the archetype has
/// entities.
pub proof fn lemma_columns_match_entity_count(w: WorldModel)
    requires
        w.wf(),
    ensures
        forall|a: int, c: int|
            0 <= a < w.archetypes.len() && 0 <= c < (#[trigger] w.archetypes[a]).columns.len()
                ==> #[trigger] w.archetypes[a].columns[c].len() == w.archetypes[a].entities.len(),
{
}

/// The world after overwriting one component's bytes in place: the block
/// of type `t` in `e`'s row is replaced when the entity carries that
/// type, and nothing else changes.
pub open spec fn write_block_model(w: WorldModel, e: Entity, t: u64, bytes: Seq<u8>) -> WorldModel {
    if w.has_component(e, t) {
        let l = w.loc_of(e.id as int);
        let arch = w.archetypes[l.archetype as int];
        let c = arch.col_of(t);
        WorldModel {
            archetypes: w.archetypes.update(
                l.archetype as int,
                ArchetypeModel {
                    columns: arch.columns.update(c, arch.columns[c].update(l.row as int, bytes)),
                    ..arch
                },
            ),
            ..w
        }
    } else {
        w
    }
}

impl World {
    /// Overwrites the byte block a live entity carries for a component
    /// type; a non-structural mutation, so locations and archetype
    /// membership are untouched. Returns whether a block was written
    /// (`false` when the entity does not carry the type).
    pub fn set_component(&mut self, e: Entity, type_id: u64, bytes: Vec<u8>) -> (r: Result<
        bool,
        EcsError,
    >)
        requires
            old(self)@.wf(),
        ensures
            final(self)@.wf(),
            match r {
                Ok(written) => {
                    &&& old(self)@.live(e)
                    &&& written == old(self)@.has_component(e, type_id)
                    &&& final(self)@ == write_block_model(old(self)@, e, type_id, bytes@)
                },
                Err(err) => {
                    &&& err == EcsError::InvalidEntity
                    &&& !old(self)@.live(e)
                    &&& final(self)@ == old(self)@
                },
            },
    {
        if !self.alloc.is_alive(e) {
            return Err(EcsError::InvalidEntity);
        }
        let ghost v0 = self@;
        let l = match self.locations[e.id] {
            Some(l) => l,
            None => {
                proof {
                    assert(false);
                }
                EntityLocation { archetype: 0, row: 0 }
            },
        };
        proof {
            assert(v0.located_ok(e.id as int));
            assert(v0.archetypes[l.archetype as int] == self.archetypes@[l.archetype as int]@);
        }
        let c = match self.archetypes[l.archetype].find_column(type_id) {
            Some(c) => c,
            None => {
                return Ok(false);
            },
        };
        let ghost arches_pre = self.archetypes@;
        proof {
            assert(v0.archetypes[l.archetype as int].columns[c as int].len()
                == v0.archetypes[l.archetype as int].entities.len());
        }
        self.archetypes[l.archetype].set_block(c, l.row, bytes);
        proof {
            let v1 = self@;
            let arch0 = v0.archetypes[l.archetype as int];
            let arch1 = v1.archetypes[l.archetype as int];
            assert forall|k: int|
                0 <= k < v1.archetypes.len() && k != l.archetype as int implies #[trigger] v1
                .archetypes[k] == v0.archetypes[k] by {
                assert(self.archetypes@[k] == arches_pre[k]);
            }
            assert(arch1.types == arch0.types);
            assert(arch1.entities == arch0.entities);
            assert(arch1.columns == arch0.columns.update(
                c as int,
                arch0.columns[c as int].update(l.row as int, bytes@),
            ));
            assert(arch1.wf());
            assert forall|k: int| 0 <= k < v1.archetypes.len() implies (
            #[trigger] v1.archetypes[k]).wf() by {
                if k != l.archetype as int {
                    assert(v1.archetypes[k] == v0.archetypes[k]);
                }
            }
            assert forall|a: int, b: int|
                0 <= a < b < v1.archetypes.len() implies !same_type_set(
                v1.archetypes[a].types,
                v1.archetypes[b].types,
            ) by {
                assert(v1.archetypes[a].types == v0.archetypes[a].types);
                assert(v1.archetypes[b].types == v0.archetypes[b].types);
            }
            assert forall|id: usize|
                id < v1.locations.len() && (#[trigger] v1.locations[id as int]) is Some implies v1
                .located_ok(id as int) by {
                assert(v0.located_ok(id as int));
                let li = v0.locations[id as int].unwrap();
                if li.archetype as int != l.archetype as int {
                    assert(v1.archetypes[li.archetype as int] == v0.archetypes[li.archetype as int]);
                }
            }
            assert forall|a: int, r: int|
                #![trigger v1.archetypes[a].entities[r]]
                0 <= a < v1.archetypes.len() && 0 <= r < v1.archetypes[a].entities.len() implies {
                let e2 = v1.archetypes[a].entities[r];
                &&& e2.id < v1.locations.len()
                &&& v1.locations[e2.id as int] == Some(
                    EntityLocation { archetype: a as usize, row: r as usize },
                )
                &&& e2.generation == v1.alloc.generations[e2.id as int]
            } by {
                if a != l.archetype as int {
                    assert(v1.archetypes[a] == v0.archetypes[a]);
                }
                assert(v1.archetypes[a].entities == v0.archetypes[a].entities);
            }
            assert(v1.alloc == v0.alloc);
            assert(v1.locations == v0.locations);
            assert(v1.registry == v0.registry);
            assert(v1.locations.len() == v1.alloc.generations.len());
            assert(forall|id: usize|
                id < v1.locations.len() ==> (v1.alloc.alive[id as int] <==> (
                #[trigger] v1.locations[id as int]) is Some));
            assert(v1.wf());
            // the mutation is exactly the model-level block write
            let w = write_block_model(v0, e, type_id, bytes@);
            assert(v0.has_component(e, type_id));
            assert(c as int == arch0.col_of(type_id));
            assert(v1.archetypes =~= w.archetypes);
            assert(v1 =~= w);
            assert(v1 == w);
        }
        Ok(true)
    }
}

} // verus!
