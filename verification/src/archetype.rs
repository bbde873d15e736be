//! Archetypes: groups of entities sharing one component-type set.
//!
//! An archetype stores its entities' component data columnar: one column
//! per component type, each column a densely packed sequence of byte
//! blocks, one block per row; a parallel list maps each row index to the
//! entity handle stored there. Rows are removed by swap-remove: the last
//! row is moved into the vacated slot and the storage shrinks by one.

use vstd::prelude::*;

use crate::component::{
    copy_bytes, find_in_row, lemma_row_bytes_at, row_bytes, row_types, same_type_set,
    ComponentValue,
};
use crate::entity::Entity;

verus! {

/// The swap-remove transform: the last element replaces the one at `i`
/// and the sequence shrinks by one.
pub open spec fn swap_removed<A>(s: Seq<A>, i: int) -> Seq<A> {
    s.update(i, s.last()).drop_last()
}

/// Mathematical model of one archetype.
#[verifier::ext_equal]
pub struct ArchetypeModel {
    /// The component-type set, one entry per type, in column order.
    pub types: Seq<u64>,
    /// One column per type: `columns[c][r]` is the byte block of component
    /// type `types[c]` for the entity in row `r`.
    pub columns: Seq<Seq<Seq<u8>>>,
    /// Row index to entity handle.
    pub entities: Seq<Entity>,
}

impl ArchetypeModel {
    /// Well-formedness: types are a set, columns parallel the types, and
    /// every column has exactly one block per row.
    pub open spec fn wf(self) -> bool {
        &&& self.types.no_duplicates()
        &&& self.columns.len() == self.types.len()
        &&& forall|c: int|
            0 <= c < self.columns.len() ==> (#[trigger] self.columns[c]).len()
                == self.entities.len()
    }

    pub open spec fn row_count(self) -> nat {
        self.entities.len()
    }

    pub open spec fn has_type(self, t: u64) -> bool {
        self.types.contains(t)
    }

    /// The column index of type `t` (meaningful when `has_type(t)`).
    pub open spec fn col_of(self, t: u64) -> int {
        self.types.index_of(t)
    }

    /// The byte block of type `t` in row `row`.
    pub open spec fn block(self, t: u64, row: int) -> Seq<u8> {
        self.columns[self.col_of(t)][row]
    }

    pub open spec fn empty() -> ArchetypeModel {
        ArchetypeModel { types: Seq::empty(), columns: Seq::empty(), entities: Seq::empty() }
    }
}

/// The deep view of the columns of an archetype.
pub open spec fn cols_view(cs: Seq<Vec<Vec<u8>>>) -> Seq<Seq<Seq<u8>>> {
    cs.map_values(|col: Vec<Vec<u8>>| col@.map_values(|b: Vec<u8>| b@))
}

/// A group of entities sharing an identical component-type set, stored as
/// parallel columns.
pub struct Archetype {
    types: Vec<u64>,
    columns: Vec<Vec<Vec<u8>>>,
    entities: Vec<Entity>,
}

impl View for Archetype {
    type V = ArchetypeModel;

    closed spec fn view(&self) -> ArchetypeModel {
        ArchetypeModel {
            types: self.types@,
            columns: cols_view(self.columns@),
            entities: self.entities@,
        }
    }
}

impl Archetype {
    /// An empty archetype holding no component types and no entities.
    pub fn new() -> (r: Archetype)
        ensures
            r@ == ArchetypeModel::empty(),
            r@.wf(),
    {
        let r = Archetype { types: Vec::new(), columns: Vec::new(), entities: Vec::new() };
        proof {
            assert(r@.types =~= Seq::<u64>::empty());
            assert(r@.columns =~= Seq::<Seq<Seq<u8>>>::empty());
            assert(r@.entities =~= Seq::<Entity>::empty());
        }
        r
    }

    /// An empty archetype for the given component-type set, one empty
    /// column per type.
    pub fn with_types(types: Vec<u64>) -> (r: Archetype)
        requires
            types@.no_duplicates(),
        ensures
            r@.wf(),
            r@.types == types@,
            r@.entities == Seq::<Entity>::empty(),
            r@.columns.len() == types@.len(),
            forall|c: int| 0 <= c < types@.len() ==> r@.columns[c] == Seq::<Seq<u8>>::empty(),
    {
        let n = types.len();
        let mut columns: Vec<Vec<Vec<u8>>> = Vec::new();
        for c in 0..n
            invariant
                columns@.len() == c,
                forall|k: int| 0 <= k < c ==> (#[trigger] columns@[k])@.len() == 0,
        {
            columns.push(Vec::new());
        }
        let r = Archetype { types, columns, entities: Vec::new() };
        proof {
            assert(r@.entities =~= Seq::<Entity>::empty());
            assert forall|c: int| 0 <= c < r@.columns.len() implies r@.columns[c] == Seq::<
                Seq<u8>,
            >::empty() by {
                assert(r@.columns[c] =~= Seq::<Seq<u8>>::empty());
            }
        }
        r
    }

    /// The archetype's component-type set, in column order.
    pub fn type_ids(&self) -> (r: &Vec<u64>)
        ensures
            r@ == self@.types,
    {
        &self.types
    }

    pub fn row_count(&self) -> (r: usize)
        ensures
            r == self@.row_count(),
    {
        self.entities.len()
    }

    pub fn column_count(&self) -> (r: usize)
        ensures
            r == self@.columns.len(),
    {
        self.columns.len()
    }

    pub fn column_len(&self, c: usize) -> (r: usize)
        requires
            c < self@.columns.len(),
        ensures
            r == self@.columns[c as int].len(),
    {
        self.columns[c].len()
    }

    pub fn type_at(&self, c: usize) -> (t: u64)
        requires
            c < self@.types.len(),
        ensures
            t == self@.types[c as int],
    {
        self.types[c]
    }

    pub fn entity_at(&self, r: usize) -> (e: Entity)
        requires
            r < self@.row_count(),
        ensures
            e == self@.entities[r as int],
    {
        self.entities[r]
    }

    /// The column holding component type `t`, if the archetype has it.
    pub fn find_column(&self, t: u64) -> (r: Option<usize>)
        requires
            self@.wf(),
        ensures
            match r {
                Some(c) => c < self@.types.len() && self@.types[c as int] == t && self@.has_type(t)
                    && c as int == self@.col_of(t),
                None => !self@.has_type(t),
            },
    {
        let n = self.types.len();
        for c in 0..n
            invariant
                self@.wf(),
                n == self@.types.len(),
                forall|k: int| 0 <= k < c ==> self@.types[k] != t,
        {
            if self.types[c] == t {
                proof {
                    assert(self@.types[c as int] == t);
                    let k = self@.col_of(t);
                    assert(self@.types.contains(t));
                    assert(self@.types[k] == t);
                }
                return Some(c);
            }
        }
        proof {
            assert forall|k: int| 0 <= k < self@.types.len() implies self@.types[k] != t by {}
        }
        None
    }

    /// A copy of the byte block in column `c`, row `r`.
    pub fn block_at(&self, c: usize, r: usize) -> (b: Vec<u8>)
        requires
            c < self@.columns.len(),
            r < self@.columns[c as int].len(),
        ensures
            b@ == self@.columns[c as int][r as int],
    {
        copy_bytes(&self.columns[c][r])
    }

    /// Appends one row: the entity handle, and into every column the byte
    /// block the row supplies for that column's type.
    pub fn push_row(&mut self, e: Entity, row: &Vec<ComponentValue>)
        requires
            old(self)@.wf(),
            row_types(row@).no_duplicates(),
            same_type_set(row_types(row@), old(self)@.types),
        ensures
            final(self)@.wf(),
            final(self)@.types == old(self)@.types,
            final(self)@.entities == old(self)@.entities.push(e),
            final(self)@.columns.len() == old(self)@.columns.len(),
            forall|c: int|
                0 <= c < old(self)@.columns.len() ==> final(self)@.columns[c] == old(
                    self,
                )@.columns[c].push(row_bytes(row@, old(self)@.types[c])),
    {
        let ghost m0 = old(self)@;
        let n = self.types.len();
        for c in 0..n
            invariant
                m0.wf(),
                row_types(row@).no_duplicates(),
                same_type_set(row_types(row@), m0.types),
                n == m0.types.len(),
                self@.types == m0.types,
                self@.entities == m0.entities,
                self@.columns.len() == m0.columns.len(),
                forall|k: int|
                    0 <= k < c ==> (#[trigger] self@.columns[k]) == m0.columns[k].push(
                        row_bytes(row@, m0.types[k]),
                    ),
                forall|k: int| c <= k < n ==> (#[trigger] self@.columns[k]) == m0.columns[k],
        {
            let t = self.types[c];
            proof {
                assert(m0.types.contains(t));
                assert(row_types(row@).contains(t));
            }
            let j = match find_in_row(row, t) {
                Some(j) => j,
                None => {
                    proof {
                        assert(false);
                    }
                    0
                },
            };
            let block = copy_bytes(&row[j].bytes);
            let ghost v_pre = self@;
            let ghost cols_pre = self.columns@;
            proof {
                lemma_row_bytes_at(row@, t, j as int);
                assert(v_pre.columns[c as int].len() == m0.entities.len());
            }
            self.columns[c].push(block);
            proof {
                assert forall|k: int|
                    0 <= k < c + 1 implies (#[trigger] self@.columns[k]) == m0.columns[k].push(
                    row_bytes(row@, m0.types[k]),
                ) by {
                    if k < c {
                        assert(self@.columns[k] == v_pre.columns[k]) by {
                            assert(self.columns@[k] == cols_pre[k]);
                        }
                        assert(v_pre.columns[k] == m0.columns[k].push(row_bytes(row@, m0.types[k])));
                    } else {
                        assert(self@.columns[c as int] =~= v_pre.columns[c as int].push(
                            row_bytes(row@, m0.types[c as int]),
                        ));
                        assert(v_pre.columns[c as int] == m0.columns[c as int]);
                    }
                }
                assert forall|k: int| c + 1 <= k < n implies (#[trigger] self@.columns[k])
                    == m0.columns[k] by {
                    assert(self@.columns[k] == v_pre.columns[k]) by {
                        assert(self.columns@[k] == cols_pre[k]);
                    }
                }
            }
        }
        self.entities.push(e);
    }

    /// Removes row `row` by swap-remove in every column and in the entity
    /// list, and returns the removed row's contents, one value per column
    /// in column order.
    pub fn take_row(&mut self, row: usize) -> (r: Vec<ComponentValue>)
        requires
            old(self)@.wf(),
            row < old(self)@.row_count(),
        ensures
            final(self)@.wf(),
            final(self)@.types == old(self)@.types,
            final(self)@.entities == swap_removed(old(self)@.entities, row as int),
            final(self)@.columns.len() == old(self)@.columns.len(),
            forall|c: int|
                0 <= c < old(self)@.columns.len() ==> final(self)@.columns[c] == swap_removed(
                    old(self)@.columns[c],
                    row as int,
                ),
            r@.len() == old(self)@.types.len(),
            forall|c: int|
                0 <= c < r@.len() ==> (#[trigger] r@[c]).type_id == old(self)@.types[c]
                    && r@[c].bytes@ == old(self)@.columns[c][row as int],
            row_types(r@) == old(self)@.types,
    {
        let ghost m0 = old(self)@;
        let n = self.types.len();
        let mut out: Vec<ComponentValue> = Vec::new();
        for c in 0..n
            invariant
                m0.wf(),
                row < m0.row_count(),
                n == m0.types.len(),
                self@.types == m0.types,
                self@.entities == m0.entities,
                self@.columns.len() == m0.columns.len(),
                out@.len() == c,
                forall|k: int|
                    0 <= k < c ==> (#[trigger] out@[k]).type_id == m0.types[k]
                        && out@[k].bytes@ == m0.columns[k][row as int],
                forall|k: int|
                    0 <= k < c ==> (#[trigger] self@.columns[k]) == swap_removed(
                        m0.columns[k],
                        row as int,
                    ),
                forall|k: int| c <= k < n ==> (#[trigger] self@.columns[k]) == m0.columns[k],
        {
            let ghost v_pre = self@;
            let ghost cols_pre = self.columns@;
            proof {
                assert(v_pre.columns[c as int].len() == m0.entities.len());
                assert(self.columns@[c as int]@.len() == m0.entities.len());
            }
            let block = self.columns[c].swap_remove(row);
            proof {
                assert forall|k: int|
                    0 <= k < c + 1 implies (#[trigger] self@.columns[k]) == swap_removed(
                    m0.columns[k],
                    row as int,
                ) by {
                    if k < c {
                        assert(self@.columns[k] == v_pre.columns[k]) by {
                            assert(self.columns@[k] == cols_pre[k]);
                        }
                        assert(v_pre.columns[k] == swap_removed(m0.columns[k], row as int));
                    } else {
                        assert(self@.columns[c as int] =~= swap_removed(
                            v_pre.columns[c as int],
                            row as int,
                        ));
                        assert(v_pre.columns[c as int] == m0.columns[c as int]);
                    }
                }
                assert forall|k: int| c + 1 <= k < n implies (#[trigger] self@.columns[k])
                    == m0.columns[k] by {
                    assert(self@.columns[k] == v_pre.columns[k]) by {
                        assert(self.columns@[k] == cols_pre[k]);
                    }
                }
                assert(block@ == m0.columns[c as int][row as int]);
            }
            let t = self.types[c];
            out.push(ComponentValue { type_id: t, bytes: block });
        }
        self.entities.swap_remove(row);
        proof {
            assert(row_types(out@) =~= m0.types);
        }
        out
    }

    /// Overwrites the byte block in column `c`, row `row`.
    pub fn set_block(&mut self, c: usize, row: usize, bytes: Vec<u8>)
        requires
            old(self)@.wf(),
            c < old(self)@.columns.len(),
            row < old(self)@.row_count(),
        ensures
            final(self)@.wf(),
            final(self)@.types == old(self)@.types,
            final(self)@.entities == old(self)@.entities,
            final(self)@.columns == old(self)@.columns.update(
                c as int,
                old(self)@.columns[c as int].update(row as int, bytes@),
            ),
    {
        proof {
            assert(self@.columns[c as int].len() == self@.entities.len());
            assert(self.columns@[c as int]@.len() == self@.entities.len());
        }
        let ghost cols_before = self.columns@;
        let ghost bytes_view = bytes@;
        self.columns[c][row] = bytes;
        proof {
            assert forall|k: int|
                0 <= k < self@.columns.len() && k != c implies self@.columns[k] == cols_view(
                cols_before,
            )[k] by {
                assert(self.columns@[k] == cols_before[k]);
            }
            assert(self@.columns[c as int] =~= cols_view(cols_before)[c as int].update(
                row as int,
                bytes_view,
            ));
            assert(self@.columns =~= cols_view(cols_before).update(
                c as int,
                cols_view(cols_before)[c as int].update(row as int, bytes_view),
            ));
        }
    }
}

} // verus!
