//! The instance-tree data model.
//!
//! `InstanceSnapshot` is a detached, owned description of an instance subtree
//! (class, name, properties, children) that carries no identity of its own.
//! `Instance` is a node of the live tree: the same data plus an `RbxId`.
//! `RbxTree` owns the whole live tree and the counter from which fresh ids
//! are assigned.
//!
//! Ghost mirrors (`SnapData`, `InstData`) state every contract in terms of
//! mathematical sequences, so that the diff/patch algorithms can be specified
//! and proved over them.

use vstd::prelude::*;

verus! {

/// Identifier of a node in a live tree: opaque to callers, unique within the
/// tree that assigned it.
pub type RbxId = u64;

/// A typed property value.
#[derive(Debug, PartialEq, Eq)]
pub enum PropValue {
    Str(String),
    Bool(bool),
    Int(i64),
}

/// Ghost mirror of `PropValue`.
#[verifier::ext_equal]
pub enum ValueData {
    Str(Seq<char>),
    Bool(bool),
    Int(int),
}

/// One named property.
#[derive(Debug, PartialEq, Eq)]
pub struct Property {
    pub name: String,
    pub value: PropValue,
}

/// Ghost mirror of `Property`.
#[verifier::ext_equal]
pub struct PropData {
    pub name: Seq<char>,
    pub value: ValueData,
}

/// A detached, owned snapshot of an instance subtree. It has no identity:
/// identity is assigned only when the snapshot is merged into a live tree.
#[derive(Debug, PartialEq, Eq)]
pub struct InstanceSnapshot {
    pub class_name: String,
    pub name: String,
    pub properties: Vec<Property>,
    pub children: Vec<InstanceSnapshot>,
}

/// Ghost mirror of `InstanceSnapshot`.
#[verifier::ext_equal]
pub struct SnapData {
    pub class_name: Seq<char>,
    pub name: Seq<char>,
    pub properties: Seq<PropData>,
    pub children: Seq<SnapData>,
}

/// A node of the live tree: snapshot data plus identity.
pub struct Instance {
    pub id: RbxId,
    pub class_name: String,
    pub name: String,
    pub properties: Vec<Property>,
    pub children: Vec<Instance>,
}

/// Ghost mirror of `Instance`.
#[verifier::ext_equal]
pub struct InstData {
    pub id: nat,
    pub class_name: Seq<char>,
    pub name: Seq<char>,
    pub properties: Seq<PropData>,
    pub children: Seq<InstData>,
}

impl View for PropValue {
    type V = ValueData;

    open spec fn view(&self) -> ValueData {
        match self {
            PropValue::Str(s) => ValueData::Str(s@),
            PropValue::Bool(b) => ValueData::Bool(*b),
            PropValue::Int(i) => ValueData::Int(*i as int),
        }
    }
}

impl View for Property {
    type V = PropData;

    open spec fn view(&self) -> PropData {
        PropData { name: self.name@, value: self.value@ }
    }
}

/// The ghost value of a snapshot.
pub open spec fn snap_view(s: InstanceSnapshot) -> SnapData
    decreases s,
{
    SnapData {
        class_name: s.class_name@,
        name: s.name@,
        properties: Seq::new(s.properties.len() as nat, |i: int| s.properties[i as int]@),
        children: Seq::new(
            s.children.len() as nat,
            |i: int|
                if 0 <= i < s.children.len() {
                    snap_view(s.children[i as int])
                } else {
                    vstd::pervasive::arbitrary()
                },
        ),
    }
}

/// The ghost value of a live subtree.
pub open spec fn inst_view(t: Instance) -> InstData
    decreases t,
{
    InstData {
        id: t.id as nat,
        class_name: t.class_name@,
        name: t.name@,
        properties: Seq::new(t.properties.len() as nat, |i: int| t.properties[i as int]@),
        children: Seq::new(
            t.children.len() as nat,
            |i: int|
                if 0 <= i < t.children.len() {
                    inst_view(t.children[i as int])
                } else {
                    vstd::pervasive::arbitrary()
                },
        ),
    }
}

impl View for InstanceSnapshot {
    type V = SnapData;

    open spec fn view(&self) -> SnapData {
        snap_view(*self)
    }
}

impl View for Instance {
    type V = InstData;

    open spec fn view(&self) -> InstData {
        inst_view(*self)
    }
}

/// Whether the id `x` occurs anywhere in the subtree `t`.
pub open spec fn has_id(t: InstData, x: nat) -> bool
    decreases t,
{
    t.id == x || exists|i: int| 0 <= i < t.children.len() && has_id(#[trigger] t.children[i], x)
}

/// Well-formedness of a live subtree: no id occurs twice. Sibling subtrees
/// carry disjoint ids, no child subtree carries its parent's id, and every
/// child subtree is itself well-formed.
pub open spec fn inst_wf(t: InstData) -> bool
    decreases t,
{
    &&& forall|i: int, j: int, x: nat|
        0 <= i < t.children.len() && 0 <= j < t.children.len() && i != j ==> !(#[trigger] has_id(
            t.children[i],
            x,
        ) && #[trigger] has_id(t.children[j], x))
    &&& forall|i: int| 0 <= i < t.children.len() ==> !has_id(#[trigger] t.children[i], t.id)
    &&& forall|i: int| 0 <= i < t.children.len() ==> inst_wf(#[trigger] t.children[i])
}

/// Every id in the subtree `t` is below `n`: `n` is safe to use as the next
/// fresh id.
pub open spec fn ids_below(t: InstData, n: nat) -> bool {
    forall|x: nat| #[trigger] has_id(t, x) ==> x < n
}

/// Whether the id `x` occurs strictly below the root of `t`: in some child
/// subtree.
pub open spec fn strictly_below(t: InstData, x: nat) -> bool {
    exists|i: int| 0 <= i < t.children.len() && has_id(#[trigger] t.children[i], x)
}

/// Ids of a child subtree are ids of the whole subtree.
pub proof fn lemma_child_ids(t: InstData, i: int)
    requires
        0 <= i < t.children.len(),
    ensures
        forall|x: nat| #[trigger] has_id(t.children[i], x) ==> has_id(t, x),
{
}

/// The views of a sequence of properties.
pub open spec fn props_view(s: Seq<Property>) -> Seq<PropData> {
    Seq::new(s.len(), |i: int| s[i]@)
}

/// The views of a sequence of snapshots.
pub open spec fn snaps_view(s: Seq<InstanceSnapshot>) -> Seq<SnapData> {
    Seq::new(
        s.len(),
        |i: int|
            if 0 <= i < s.len() {
                s[i]@
            } else {
                vstd::pervasive::arbitrary()
            },
    )
}

impl PropValue {
    /// An owned copy with the same value.
    pub fn duplicate(&self) -> (r: PropValue)
        ensures
            r@ == self@,
    {
        match self {
            PropValue::Str(s) => PropValue::Str(s.clone()),
            PropValue::Bool(b) => PropValue::Bool(*b),
            PropValue::Int(i) => PropValue::Int(*i),
        }
    }
}

impl Property {
    /// An owned copy with the same name and value.
    pub fn duplicate(&self) -> (r: Property)
        ensures
            r@ == self@,
    {
        Property { name: self.name.clone(), value: self.value.duplicate() }
    }
}

/// An owned copy of a property list, property by property.
pub fn duplicate_properties(ps: &Vec<Property>) -> (r: Vec<Property>)
    ensures
        props_view(r@) == props_view(ps@),
{
    let mut r: Vec<Property> = Vec::new();
    let mut i: usize = 0;
    while i < ps.len()
        invariant
            i <= ps.len(),
            r@.len() == i as int,
            forall|j: int| 0 <= j < i as int ==> r@[j]@ == ps@[j]@,
        decreases ps.len() - i,
    {
        r.push(ps[i].duplicate());
        i = i + 1;
    }
    proof {
        assert(props_view(r@) =~= props_view(ps@));
    }
    r
}

impl InstanceSnapshot {
    /// An owned, structurally equal copy of the snapshot.
    pub fn duplicate(&self) -> (r: InstanceSnapshot)
        ensures
            r@ == self@,
        decreases *self,
    {
        let mut children: Vec<InstanceSnapshot> = Vec::new();
        let mut i: usize = 0;
        while i < self.children.len()
            invariant
                i <= self.children.len(),
                children@.len() == i as int,
                forall|j: int| 0 <= j < i as int ==> children@[j]@ == self.children@[j]@,
            decreases self.children.len() - i,
        {
            children.push(self.children[i].duplicate());
            i = i + 1;
        }
        let r = InstanceSnapshot {
            class_name: self.class_name.clone(),
            name: self.name.clone(),
            properties: duplicate_properties(&self.properties),
            children,
        };
        proof {
            assert forall|j: int| 0 <= j < r@.properties.len() implies r@.properties[j]
                == self@.properties[j] by {
                assert(props_view(r.properties@)[j] == props_view(self.properties@)[j]);
            }
            assert(r@.properties =~= self@.properties);
            assert forall|j: int| 0 <= j < r@.children.len() implies r@.children[j]
                == self@.children[j] by {
                assert(r@.children[j] == r.children[j as int]@);
                assert(self@.children[j] == self.children[j as int]@);
                assert(r.children[j as int]@ == self.children@[j]@);
            }
            assert(r@.children =~= self@.children);
            assert(r@ =~= self@);
        }
        r
    }
}

impl Instance {
    /// An owned copy of the subtree, ids included.
    pub fn duplicate(&self) -> (r: Instance)
        ensures
            r@ == self@,
        decreases *self,
    {
        let mut children: Vec<Instance> = Vec::new();
        let mut i: usize = 0;
        while i < self.children.len()
            invariant
                i <= self.children.len(),
                children@.len() == i as int,
                forall|j: int| 0 <= j < i as int ==> children@[j]@ == self.children@[j]@,
            decreases self.children.len() - i,
        {
            children.push(self.children[i].duplicate());
            i = i + 1;
        }
        let r = Instance {
            id: self.id,
            class_name: self.class_name.clone(),
            name: self.name.clone(),
            properties: duplicate_properties(&self.properties),
            children,
        };
        proof {
            assert forall|j: int| 0 <= j < r@.properties.len() implies r@.properties[j]
                == self@.properties[j] by {
                assert(props_view(r.properties@)[j] == props_view(self.properties@)[j]);
            }
            assert(r@.properties =~= self@.properties);
            assert forall|j: int| 0 <= j < r@.children.len() implies r@.children[j]
                == self@.children[j] by {
                assert(r@.children[j] == r.children[j as int]@);
                assert(self@.children[j] == self.children[j as int]@);
                assert(r.children[j as int]@ == self.children@[j]@);
            }
            assert(r@.children =~= self@.children);
            assert(r@ =~= self@);
        }
        r
    }
}

} // verus!
