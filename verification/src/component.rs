//! Type-erased component values and the component registry.
//!
//! A component is carried through the storage core as a [`ComponentValue`]:
//! a runtime type identity paired with the value's raw bytes. The
//! [`ComponentRegistry`] records, per distinct component type, a
//! [`ComponentDescriptor`] (type identity, byte size, alignment) used by
//! storage code that operates without compile-time type knowledge.

use vstd::prelude::*;

verus! {

/// A component type's type-erased description: type identity, byte size
/// and alignment. Registered once per distinct component type.
#[derive(Clone, Copy, PartialEq, Eq, Structural, Debug)]
pub struct ComponentDescriptor {
    pub type_id: u64,
    pub size: usize,
    pub align: usize,
}

/// A typed data value attachable to an entity, erased to its type
/// identity and raw bytes.
pub struct ComponentValue {
    pub type_id: u64,
    pub bytes: Vec<u8>,
}

/// A type that can hand itself to the storage core: it names its runtime
/// type identity, its layout, and its value as raw bytes.
///
/// Implementors must use one type identity per distinct component type and
/// encode every value of the type with the same byte length.
pub trait Component {
    fn component_type_id(&self) -> u64;

    fn component_size(&self) -> usize;

    fn component_align(&self) -> usize;

    fn component_bytes(&self) -> Vec<u8>;
}

impl ComponentValue {
    /// Erases a typed component value.
    pub fn from_component<C: Component>(c: &C) -> ComponentValue {
        ComponentValue { type_id: c.component_type_id(), bytes: c.component_bytes() }
    }

    /// The descriptor a typed component value registers under.
    pub fn describe_component<C: Component>(c: &C) -> ComponentDescriptor {
        ComponentDescriptor {
            type_id: c.component_type_id(),
            size: c.component_size(),
            align: c.component_align(),
        }
    }
}

/// An exact copy of a byte block.
pub fn copy_bytes(src: &Vec<u8>) -> (r: Vec<u8>)
    ensures
        r@ == src@,
{
    let mut r: Vec<u8> = Vec::new();
    for i in 0..src.len()
        invariant
            r@ == src@.take(i as int),
    {
        r.push(src[i]);
        proof {
            assert(r@ =~= src@.take(i + 1));
        }
    }
    proof {
        assert(src@.take(src@.len() as int) =~= src@);
    }
    r
}

/// The type identities of a row of component values, in row order.
pub open spec fn row_types(row: Seq<ComponentValue>) -> Seq<u64> {
    row.map_values(|cv: ComponentValue| cv.type_id)
}

/// The bytes the row carries for type `t` (meaningful when `t` occurs
/// exactly once in the row).
pub open spec fn row_bytes(row: Seq<ComponentValue>, t: u64) -> Seq<u8> {
    row[row_types(row).index_of(t)].bytes@
}

/// Two type lists denote the same component-type set.
pub open spec fn same_type_set(a: Seq<u64>, b: Seq<u64>) -> bool {
    forall|t: u64| a.contains(t) <==> b.contains(t)
}

/// Whether a type list holds `t`.
pub fn contains_type_id(v: &Vec<u64>, t: u64) -> (r: bool)
    ensures
        r == v@.contains(t),
{
    let n = v.len();
    for i in 0..n
        invariant
            n == v@.len(),
            forall|k: int| 0 <= k < i ==> v@[k] != t,
    {
        if v[i] == t {
            return true;
        }
    }
    false
}

/// Whether two type lists denote the same component-type set.
pub fn same_set(a: &Vec<u64>, b: &Vec<u64>) -> (r: bool)
    ensures
        r == same_type_set(a@, b@),
{
    let na = a.len();
    for i in 0..na
        invariant
            na == a@.len(),
            forall|k: int| 0 <= k < i ==> b@.contains(#[trigger] a@[k]),
    {
        if !contains_type_id(b, a[i]) {
            proof {
                assert(a@.contains(a@[i as int]));
            }
            return false;
        }
    }
    let nb = b.len();
    for i in 0..nb
        invariant
            nb == b@.len(),
            forall|k: int| 0 <= k < na as int ==> b@.contains(#[trigger] a@[k]),
            na == a@.len(),
            forall|k: int| 0 <= k < i ==> a@.contains(#[trigger] b@[k]),
    {
        if !contains_type_id(a, b[i]) {
            proof {
                assert(b@.contains(b@[i as int]));
            }
            return false;
        }
    }
    proof {
        assert forall|t: u64| a@.contains(t) <==> b@.contains(t) by {
            if a@.contains(t) {
                let k = choose|k: int| 0 <= k < a@.len() && a@[k] == t;
                assert(b@.contains(a@[k]));
            }
            if b@.contains(t) {
                let k = choose|k: int| 0 <= k < b@.len() && b@[k] == t;
                assert(a@.contains(b@[k]));
            }
        }
    }
    true
}

/// An exact copy of a type list.
pub fn copy_types(src: &Vec<u64>) -> (r: Vec<u64>)
    ensures
        r@ == src@,
{
    let mut r: Vec<u64> = Vec::new();
    for i in 0..src.len()
        invariant
            r@ == src@.take(i as int),
    {
        r.push(src[i]);
        proof {
            assert(r@ =~= src@.take(i + 1));
        }
    }
    proof {
        assert(src@.take(src@.len() as int) =~= src@);
    }
    r
}

/// The type identities of a row, collected in row order.
pub fn collect_row_types(row: &Vec<ComponentValue>) -> (r: Vec<u64>)
    ensures
        r@ == row_types(row@),
{
    let n = row.len();
    let mut r: Vec<u64> = Vec::new();
    for i in 0..n
        invariant
            n == row@.len(),
            r@ == row_types(row@).take(i as int),
    {
        r.push(row[i].type_id);
        proof {
            assert(r@ =~= row_types(row@).take(i + 1));
        }
    }
    proof {
        assert(row_types(row@).take(n as int) =~= row_types(row@));
    }
    r
}

/// Whether a row names some component type twice.
pub fn row_has_duplicate(row: &Vec<ComponentValue>) -> (r: bool)
    ensures
        r == !row_types(row@).no_duplicates(),
{
    let n = row.len();
    for i in 0..n
        invariant
            n == row@.len(),
            forall|p: int, q: int| 0 <= p < q <= i - 1 ==> row@[p].type_id != row@[q].type_id,
    {
        for j in 0..i
            invariant
                n == row@.len(),
                i < n,
                forall|p: int, q: int| 0 <= p < q <= i - 1 ==> row@[p].type_id != row@[q].type_id,
                forall|p: int| 0 <= p < j ==> row@[p].type_id != row@[i as int].type_id,
        {
            if row[j].type_id == row[i].type_id {
                proof {
                    assert(row_types(row@)[j as int] == row_types(row@)[i as int]);
                }
                return true;
            }
        }
    }
    proof {
        assert forall|p: int, q: int|
            0 <= p < q < row_types(row@).len() implies row_types(row@)[p] != row_types(
            row@,
        )[q] by {
            assert(row@[p].type_id != row@[q].type_id);
        }
    }
    false
}

/// The position of type `t` in a row of component values.
pub fn find_in_row(row: &Vec<ComponentValue>, t: u64) -> (r: Option<usize>)
    ensures
        match r {
            Some(j) => j < row@.len() && row@[j as int].type_id == t && row_types(row@).contains(
                t,
            ),
            None => !row_types(row@).contains(t),
        },
{
    let n = row.len();
    for j in 0..n
        invariant
            n == row@.len(),
            forall|k: int| 0 <= k < j ==> row@[k].type_id != t,
    {
        if row[j].type_id == t {
            proof {
                assert(row_types(row@)[j as int] == t);
            }
            return Some(j);
        }
    }
    proof {
        assert forall|k: int| 0 <= k < row_types(row@).len() implies row_types(row@)[k] != t by {
            assert(row@[k].type_id != t);
        }
    }
    None
}

/// With duplicate-free types, the row's bytes for `t` are those of any
/// position holding `t`.
pub proof fn lemma_row_bytes_at(row: Seq<ComponentValue>, t: u64, j: int)
    requires
        row_types(row).no_duplicates(),
        0 <= j < row.len(),
        row[j].type_id == t,
    ensures
        row_bytes(row, t) == row[j].bytes@,
        row_types(row).contains(t),
{
    assert(row_types(row)[j] == t);
    let k = row_types(row).index_of(t);
    assert(row_types(row)[k] == t);
}

/// Whether the registry sequence holds a descriptor for type `t`.
pub open spec fn registered(descs: Seq<ComponentDescriptor>, t: u64) -> bool {
    exists|i: int| 0 <= i < descs.len() && descs[i].type_id == t
}

/// Records, per component type, the descriptor used to create and
/// interpret raw storage.
pub struct ComponentRegistry {
    descriptors: Vec<ComponentDescriptor>,
}

impl View for ComponentRegistry {
    type V = Seq<ComponentDescriptor>;

    closed spec fn view(&self) -> Seq<ComponentDescriptor> {
        self.descriptors@
    }
}

impl ComponentRegistry {
    /// At most one descriptor per type identity.
    pub open spec fn wf(&self) -> bool {
        forall|i: int, j: int|
            0 <= i < j < self@.len() ==> self@[i].type_id != self@[j].type_id
    }

    pub fn new() -> (r: ComponentRegistry)
        ensures
            r@ == Seq::<ComponentDescriptor>::empty(),
            r.wf(),
    {
        let r = ComponentRegistry { descriptors: Vec::new() };
        proof {
            assert(r@ =~= Seq::<ComponentDescriptor>::empty());
        }
        r
    }

    /// Idempotent registration: records the descriptor if its type is new,
    /// and either way returns the descriptor stored for that type.
    pub fn register(&mut self, desc: ComponentDescriptor) -> (r: ComponentDescriptor)
        requires
            old(self).wf(),
        ensures
            final(self).wf(),
            r.type_id == desc.type_id,
            final(self)@.contains(r),
            registered(final(self)@, desc.type_id),
            if registered(old(self)@, desc.type_id) {
                final(self)@ == old(self)@
            } else {
                final(self)@ == old(self)@.push(desc) && r == desc
            },
            forall|t: u64|
                registered(final(self)@, t) <==> registered(old(self)@, t) || t == desc.type_id,
    {
        let n = self.descriptors.len();
        for i in 0..n
            invariant
                self@ == old(self)@,
                old(self).wf(),
                n == self.descriptors.len(),
                forall|k: int| 0 <= k < i ==> self@[k].type_id != desc.type_id,
        {
            if self.descriptors[i].type_id == desc.type_id {
                let found = self.descriptors[i];
                proof {
                    assert(self@[i as int] == found);
                }
                return found;
            }
        }
        self.descriptors.push(desc);
        proof {
            assert(self@[self@.len() - 1] == desc);
            assert forall|t: u64|
                registered(self@, t) <==> registered(old(self)@, t) || t == desc.type_id by {
                if registered(self@, t) {
                    let i = choose|i: int| 0 <= i < self@.len() && self@[i].type_id == t;
                    if i < old(self)@.len() {
                        assert(old(self)@[i].type_id == t);
                    } else {
                        assert(self@[i] == desc);
                    }
                }
                if registered(old(self)@, t) {
                    let i = choose|i: int|
                        0 <= i < old(self)@.len() && old(self)@[i].type_id == t;
                    assert(self@[i].type_id == t);
                }
            }
        }
        desc
    }

    /// Looks a type identity up for storage code that operates without
    /// compile-time type knowledge.
    pub fn describe(&self, type_id: u64) -> (r: Option<ComponentDescriptor>)
        ensures
            match r {
                Some(d) => self@.contains(d) && d.type_id == type_id && registered(
                    self@,
                    type_id,
                ),
                None => !registered(self@, type_id),
            },
    {
        let n = self.descriptors.len();
        for i in 0..n
            invariant
                n == self.descriptors.len(),
                forall|k: int| 0 <= k < i ==> self@[k].type_id != type_id,
        {
            if self.descriptors[i].type_id == type_id {
                return Some(self.descriptors[i]);
            }
        }
        None
    }
}

} // verus!
