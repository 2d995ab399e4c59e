//! Structural diff and patch over instance trees.
//!
//! `diff` compares a live subtree against a detached snapshot and produces a
//! `PatchNode`: per matched node an optional field update, patch nodes for the
//! leading children (matched pairwise by index), the ids of trailing children
//! to remove, and snapshots of trailing children to add. Children are matched
//! by position, never by heuristic similarity, so an external reordering reads
//! as interleaved removals and additions.
//!
//! `RbxTree::apply_patch` executes a patch all-or-nothing: removals, then
//! field updates, then additions under an existing parent. A patch whose
//! targets have diverged from the tree it was computed against is rejected
//! whole with `PatchError::StaleTarget` and the tree is left unchanged.
//!
//! Every contract is stated over the ghost mirrors (`InstData`, `SnapData`,
//! `PatchNodeData`); the lemmas at the end state the diff/patch laws.

use vstd::prelude::*;
use crate::tree::{Instance, InstanceSnapshot, Property, PropValue, PropData, SnapData, InstData, RbxId, has_id, inst_wf, ids_below, lemma_child_ids, props_view, snaps_view, duplicate_properties, snap_view};

verus! {

/// The replacement fields carried by an update operation.
#[derive(Debug, PartialEq, Eq)]
pub struct UpdatedFields {
    pub class_name: String,
    pub name: String,
    pub properties: Vec<Property>,
}

/// Ghost mirror of `UpdatedFields`.
pub struct FieldsData {
    pub class_name: Seq<char>,
    pub name: Seq<char>,
    pub properties: Seq<PropData>,
}

impl View for UpdatedFields {
    type V = FieldsData;

    open spec fn view(&self) -> FieldsData {
        FieldsData {
            class_name: self.class_name@,
            name: self.name@,
            properties: props_view(self.properties@),
        }
    }
}

/// One node of a structural patch, targeting the live node with id `id`.
#[derive(Debug, PartialEq, Eq)]
pub struct PatchNode {
    pub id: RbxId,
    pub update: Option<UpdatedFields>,
    pub children: Vec<PatchNode>,
    pub removed: Vec<RbxId>,
    pub added: Vec<InstanceSnapshot>,
}

/// Ghost mirror of `PatchNode`.
pub struct PatchNodeData {
    pub id: nat,
    pub update: Option<FieldsData>,
    pub children: Seq<PatchNodeData>,
    pub removed: Seq<nat>,
    pub added: Seq<SnapData>,
}

/// The ghost value of a patch node.
pub open spec fn patch_view(p: PatchNode) -> PatchNodeData
    decreases p,
{
    PatchNodeData {
        id: p.id as nat,
        update: match p.update {
            Some(u) => Some(u@),
            None => None,
        },
        children: Seq::new(
            p.children.len() as nat,
            |i: int|
                if 0 <= i < p.children.len() {
                    patch_view(p.children[i as int])
                } else {
                    vstd::pervasive::arbitrary()
                },
        ),
        removed: Seq::new(p.removed.len() as nat, |i: int| p.removed[i as int] as nat),
        added: Seq::new(
            p.added.len() as nat,
            |i: int|
                if 0 <= i < p.added.len() {
                    snap_view(p.added[i as int])
                } else {
                    vstd::pervasive::arbitrary()
                },
        ),
    }
}

impl View for PatchNode {
    type V = PatchNodeData;

    open spec fn view(&self) -> PatchNodeData {
        patch_view(*self)
    }
}

impl UpdatedFields {
    /// An owned copy with the same fields.
    pub fn duplicate(&self) -> (r: UpdatedFields)
        ensures
            r@ == self@,
    {
        let r = UpdatedFields {
            class_name: self.class_name.clone(),
            name: self.name.clone(),
            properties: duplicate_properties(&self.properties),
        };
        proof {
            assert(r@ =~= self@);
        }
        r
    }
}

impl PatchNode {
    /// An owned, equal copy of the patch.
    pub fn duplicate(&self) -> (r: PatchNode)
        ensures
            r@ == self@,
        decreases *self,
    {
        let update = match &self.update {
            Some(u) => Some(u.duplicate()),
            None => None,
        };
        let mut children: Vec<PatchNode> = Vec::new();
        let mut i: usize = 0;
        while i < self.children.len()
            invariant
                i <= self.children.len(),
                children@.len() == i as int,
                forall|j: int|
                    0 <= j < i as int ==> patch_view(children@[j]) == patch_view(
                        self.children@[j],
                    ),
            decreases self.children.len() - i,
        {
            children.push(self.children[i].duplicate());
            i = i + 1;
        }
        let mut removed: Vec<RbxId> = Vec::new();
        let mut i: usize = 0;
        while i < self.removed.len()
            invariant
                i <= self.removed.len(),
                removed@ =~= self.removed@.subrange(0, i as int),
            decreases self.removed.len() - i,
        {
            removed.push(self.removed[i]);
            i = i + 1;
        }
        let mut added: Vec<InstanceSnapshot> = Vec::new();
        let mut i: usize = 0;
        while i < self.added.len()
            invariant
                i <= self.added.len(),
                added@.len() == i as int,
                forall|j: int|
                    0 <= j < i as int ==> snap_view(added@[j]) == snap_view(self.added@[j]),
            decreases self.added.len() - i,
        {
            added.push(self.added[i].duplicate());
            i = i + 1;
        }
        let r = PatchNode { id: self.id, update, children, removed, added };
        proof {
            assert(self.removed@.subrange(0, self.removed@.len() as int) =~= self.removed@);
            assert(r@.children =~= self@.children);
            assert(r@.removed =~= self@.removed);
            assert(r@.added =~= self@.added);
            assert(r@ =~= self@);
        }
        r
    }
}

/// One operation of a patch, in the order they are executed: removals
/// (deepest first), then field updates, then additions under an existing
/// parent.
#[derive(Debug, PartialEq, Eq)]
pub enum PatchOp {
    Remove { id: RbxId },
    Update { id: RbxId, fields: UpdatedFields },
    Add { parent: RbxId, snapshot: InstanceSnapshot },
}

/// Ghost mirror of `PatchOp`.
pub enum PatchOpData {
    Remove { id: nat },
    Update { id: nat, fields: FieldsData },
    Add { parent: nat, snapshot: SnapData },
}

/// The ghost value of a patch operation.
pub open spec fn op_view(o: PatchOp) -> PatchOpData {
    match o {
        PatchOp::Remove { id } => PatchOpData::Remove { id: id as nat },
        PatchOp::Update { id, fields } => PatchOpData::Update { id: id as nat, fields: fields@ },
        PatchOp::Add { parent, snapshot } => PatchOpData::Add {
            parent: parent as nat,
            snapshot: snapshot@,
        },
    }
}

impl View for PatchOp {
    type V = PatchOpData;

    open spec fn view(&self) -> PatchOpData {
        op_view(*self)
    }
}

/// The ghost values of a sequence of operations.
pub open spec fn ops_view(s: Seq<PatchOp>) -> Seq<PatchOpData> {
    Seq::new(
        s.len(),
        |i: int|
            if 0 <= i < s.len() {
                op_view(s[i])
            } else {
                vstd::pervasive::arbitrary()
            },
    )
}

/// The removals a patch performs, deepest first.
pub open spec fn removals_spec(p: PatchNodeData) -> Seq<PatchOpData>
    decreases p, 1int, 0int,
{
    removals_children_spec(p, 0) + Seq::new(
        p.removed.len(),
        |i: int| PatchOpData::Remove { id: p.removed[i] },
    )
}

/// The removals of the child patches `p.children[i..]`.
pub open spec fn removals_children_spec(p: PatchNodeData, i: int) -> Seq<PatchOpData>
    decreases p, 0int, p.children.len() - i,
{
    if !(0 <= i < p.children.len()) {
        Seq::empty()
    } else {
        removals_spec(p.children[i]) + removals_children_spec(p, i + 1)
    }
}

/// The field updates a patch performs, outermost first.
pub open spec fn updates_spec(p: PatchNodeData) -> Seq<PatchOpData>
    decreases p, 1int, 0int,
{
    (match p.update {
        Some(f) => seq![PatchOpData::Update { id: p.id, fields: f }],
        None => Seq::empty(),
    }) + updates_children_spec(p, 0)
}

/// The updates of the child patches `p.children[i..]`.
pub open spec fn updates_children_spec(p: PatchNodeData, i: int) -> Seq<PatchOpData>
    decreases p, 0int, p.children.len() - i,
{
    if !(0 <= i < p.children.len()) {
        Seq::empty()
    } else {
        updates_spec(p.children[i]) + updates_children_spec(p, i + 1)
    }
}

/// The additions a patch performs, outermost first: parents exist before
/// their children are inserted.
pub open spec fn adds_spec(p: PatchNodeData) -> Seq<PatchOpData>
    decreases p, 1int, 0int,
{
    Seq::new(p.added.len(), |i: int| PatchOpData::Add { parent: p.id, snapshot: p.added[i] })
        + adds_children_spec(p, 0)
}

/// The additions of the child patches `p.children[i..]`.
pub open spec fn adds_children_spec(p: PatchNodeData, i: int) -> Seq<PatchOpData>
    decreases p, 0int, p.children.len() - i,
{
    if !(0 <= i < p.children.len()) {
        Seq::empty()
    } else {
        adds_spec(p.children[i]) + adds_children_spec(p, i + 1)
    }
}

/// The operations of a patch, in execution order: every removal (deepest
/// first), then every update, then every addition.
pub open spec fn ops_spec(p: PatchNodeData) -> Seq<PatchOpData> {
    removals_spec(p) + updates_spec(p) + adds_spec(p)
}

/// Appends the removals of `p`, deepest first.
fn push_removals(p: &PatchNode, out: &mut Vec<PatchOp>)
    ensures
        ops_view(final(out)@) == ops_view(old(out)@) + removals_spec(p@),
    decreases *p, 1int, 0int,
{
    let mut i: usize = 0;
    while i < p.children.len()
        invariant
            i <= p.children@.len(),
            ops_view(out@) + removals_children_spec(p@, i as int) =~= ops_view(old(out)@)
                + removals_children_spec(p@, 0),
        decreases p.children@.len() - i,
    {
        let ghost pre = out@;
        proof {
            assert(p@.children[i as int] == p.children@[i as int]@);
        }
        push_removals(&p.children[i], out);
        proof {
            assert(ops_view(out@) + removals_children_spec(p@, i as int + 1) =~= ops_view(pre)
                + removals_children_spec(p@, i as int));
        }
        i = i + 1;
    }
    let mut j: usize = 0;
    while j < p.removed.len()
        invariant
            j <= p.removed@.len(),
            ops_view(out@) =~= ops_view(old(out)@) + removals_children_spec(p@, 0) + Seq::new(
                j as nat,
                |k: int| PatchOpData::Remove { id: p@.removed[k] },
            ),
        decreases p.removed@.len() - j,
    {
        let ghost pre = out@;
        out.push(PatchOp::Remove { id: p.removed[j] });
        proof {
            assert(ops_view(out@) =~= ops_view(pre).push(
                PatchOpData::Remove { id: p@.removed[j as int] },
            ));
            assert(ops_view(out@) =~= ops_view(old(out)@) + removals_children_spec(p@, 0)
                + Seq::new(
                j as nat + 1,
                |k: int| PatchOpData::Remove { id: p@.removed[k] },
            ));
        }
        j = j + 1;
    }
    proof {
        assert(Seq::new(
            p.removed@.len(),
            |k: int| PatchOpData::Remove { id: p@.removed[k] },
        ) =~= Seq::new(p@.removed.len(), |k: int| PatchOpData::Remove { id: p@.removed[k] }));
        assert(ops_view(out@) =~= ops_view(old(out)@) + removals_spec(p@));
    }
}

/// Appends the field updates of `p`, outermost first.
fn push_updates(p: &PatchNode, out: &mut Vec<PatchOp>)
    ensures
        ops_view(final(out)@) == ops_view(old(out)@) + updates_spec(p@),
    decreases *p, 1int, 0int,
{
    let ghost entry = out@;
    match &p.update {
        Some(u) => {
            out.push(PatchOp::Update { id: p.id, fields: u.duplicate() });
            proof {
                assert(ops_view(out@) =~= ops_view(entry).push(
                    PatchOpData::Update { id: p@.id, fields: u@ },
                ));
            }
        },
        None => {},
    }
    let ghost mid = out@;
    let mut i: usize = 0;
    while i < p.children.len()
        invariant
            i <= p.children@.len(),
            ops_view(out@) + updates_children_spec(p@, i as int) =~= ops_view(mid)
                + updates_children_spec(p@, 0),
        decreases p.children@.len() - i,
    {
        let ghost pre = out@;
        proof {
            assert(p@.children[i as int] == p.children@[i as int]@);
        }
        push_updates(&p.children[i], out);
        proof {
            assert(ops_view(out@) + updates_children_spec(p@, i as int + 1) =~= ops_view(pre)
                + updates_children_spec(p@, i as int));
        }
        i = i + 1;
    }
    proof {
        assert(ops_view(out@) =~= ops_view(old(out)@) + updates_spec(p@));
    }
}

/// Appends the additions of `p`, outermost first.
fn push_adds(p: &PatchNode, out: &mut Vec<PatchOp>)
    ensures
        ops_view(final(out)@) == ops_view(old(out)@) + adds_spec(p@),
    decreases *p, 1int, 0int,
{
    let mut j: usize = 0;
    while j < p.added.len()
        invariant
            j <= p.added@.len(),
            ops_view(out@) =~= ops_view(old(out)@) + Seq::new(
                j as nat,
                |k: int| PatchOpData::Add { parent: p@.id, snapshot: p@.added[k] },
            ),
        decreases p.added@.len() - j,
    {
        let ghost pre = out@;
        out.push(PatchOp::Add { parent: p.id, snapshot: p.added[j].duplicate() });
        proof {
            assert(p@.added[j as int] == snap_view(p.added@[j as int]));
            assert(ops_view(out@) =~= ops_view(pre).push(
                PatchOpData::Add { parent: p@.id, snapshot: p@.added[j as int] },
            ));
            assert(ops_view(out@) =~= ops_view(old(out)@) + Seq::new(
                j as nat + 1,
                |k: int| PatchOpData::Add { parent: p@.id, snapshot: p@.added[k] },
            ));
        }
        j = j + 1;
    }
    let ghost mid = out@;
    let mut i: usize = 0;
    while i < p.children.len()
        invariant
            i <= p.children@.len(),
            ops_view(out@) + adds_children_spec(p@, i as int) =~= ops_view(mid)
                + adds_children_spec(p@, 0),
        decreases p.children@.len() - i,
    {
        let ghost pre = out@;
        proof {
            assert(p@.children[i as int] == p.children@[i as int]@);
        }
        push_adds(&p.children[i], out);
        proof {
            assert(ops_view(out@) + adds_children_spec(p@, i as int + 1) =~= ops_view(pre)
                + adds_children_spec(p@, i as int));
        }
        i = i + 1;
    }
    proof {
        assert(Seq::new(
            p.added@.len(),
            |k: int| PatchOpData::Add { parent: p@.id, snapshot: p@.added[k] },
        ) =~= Seq::new(
            p@.added.len(),
            |k: int| PatchOpData::Add { parent: p@.id, snapshot: p@.added[k] },
        ));
        assert(ops_view(out@) =~= ops_view(old(out)@) + adds_spec(p@));
    }
}

impl PatchNode {
    /// The operations this patch performs, in execution order: every removal
    /// (deepest first), then every update, then every addition under an
    /// already-present parent. This is the form a patch is published in.
    pub fn to_ops(&self) -> (r: Vec<PatchOp>)
        ensures
            ops_view(r@) == ops_spec(self@),
    {
        let mut out: Vec<PatchOp> = Vec::new();
        proof {
            assert(ops_view(out@) =~= Seq::<PatchOpData>::empty());
        }
        push_removals(self, &mut out);
        push_updates(self, &mut out);
        push_adds(self, &mut out);
        proof {
            assert(ops_view(out@) =~= ops_spec(self@));
        }
        out
    }
}

/// The ghost values of a sequence of patches.
pub open spec fn patch_views(s: Seq<PatchNode>) -> Seq<PatchNodeData> {
    Seq::new(
        s.len(),
        |i: int|
            if 0 <= i < s.len() {
                patch_view(s[i])
            } else {
                vstd::pervasive::arbitrary()
            },
    )
}

/// Applying a sequence of patches in order, each at the root, threading the
/// tree and the fresh-id counter. `None` as soon as one does not fit.
pub open spec fn apply_all_spec(root: InstData, next: nat, ps: Seq<PatchNodeData>) -> Option<
    (InstData, nat),
>
    decreases ps.len(),
{
    if ps.len() == 0 {
        Some((root, next))
    } else {
        match apply_node_spec(root, ps[0], next) {
            None => None,
            Some(r) => apply_all_spec(r.0, r.1, ps.drop_first()),
        }
    }
}

/// Extending a patch sequence applies the new patch to the fold's result.
pub proof fn lemma_apply_all_snoc(root: InstData, next: nat, ps: Seq<PatchNodeData>, p: PatchNodeData)
    ensures
        apply_all_spec(root, next, ps.push(p)) == (match apply_all_spec(root, next, ps) {
            None => None,
            Some(r) => apply_node_spec(r.0, p, r.1),
        }),
    decreases ps.len(),
{
    reveal_with_fuel(apply_all_spec, 3);
    if ps.len() == 0 {
        assert(ps.push(p)[0] == p);
        assert(ps.push(p).drop_first() =~= ps);
    } else {
        assert(ps.push(p)[0] == ps[0]);
        assert(ps.push(p).drop_first() =~= ps.drop_first().push(p));
        match apply_node_spec(root, ps[0], next) {
            None => {},
            Some(r) => {
                lemma_apply_all_snoc(r.0, r.1, ps.drop_first(), p);
            },
        }
    }
}

/// The fields of a live node, as carried by an update.
pub open spec fn inst_fields(t: InstData) -> FieldsData {
    FieldsData { class_name: t.class_name, name: t.name, properties: t.properties }
}

/// The fields of a snapshot, as carried by an update.
pub open spec fn snap_fields(s: SnapData) -> FieldsData {
    FieldsData { class_name: s.class_name, name: s.name, properties: s.properties }
}

/// Structural equality between a live subtree and a snapshot: same fields and
/// pairwise structurally-equal children. Identity (ids) is ignored.
pub open spec fn inst_matches_snap(t: InstData, s: SnapData) -> bool
    decreases t,
{
    &&& t.class_name == s.class_name
    &&& t.name == s.name
    &&& t.properties == s.properties
    &&& t.children.len() == s.children.len()
    &&& forall|i: int|
        0 <= i < t.children.len() ==> inst_matches_snap(#[trigger] t.children[i], s.children[i])
}

/// How many leading children `diff_spec` matches pairwise.
pub open spec fn matched_len(t: InstData, s: SnapData) -> int {
    if t.children.len() <= s.children.len() {
        t.children.len() as int
    } else {
        s.children.len() as int
    }
}

/// The structural diff of a live subtree against a snapshot: an update where
/// the fields differ, a recursive diff for each leading child pair, a removal
/// for each trailing live child, an addition for each trailing snapshot child.
pub open spec fn diff_spec(t: InstData, s: SnapData) -> PatchNodeData
    decreases t,
{
    let m = matched_len(t, s);
    PatchNodeData {
        id: t.id,
        update: if inst_fields(t) == snap_fields(s) {
            None
        } else {
            Some(snap_fields(s))
        },
        children: Seq::new(
            m as nat,
            |i: int|
                if 0 <= i < t.children.len() && i < s.children.len() {
                    diff_spec(t.children[i], s.children[i])
                } else {
                    vstd::pervasive::arbitrary()
                },
        ),
        removed: Seq::new((t.children.len() - m) as nat, |i: int| t.children[m + i].id),
        added: s.children.subrange(m, s.children.len() as int),
    }
}

/// A patch that performs no operation at all: no update, no removal, no
/// addition, anywhere in it.
pub open spec fn patch_is_noop(p: PatchNodeData) -> bool
    decreases p,
{
    &&& p.update is None
    &&& p.removed.len() == 0
    &&& p.added.len() == 0
    &&& forall|i: int| 0 <= i < p.children.len() ==> patch_is_noop(#[trigger] p.children[i])
}

/// Whether a patch removes at least one instance, at any depth.
pub open spec fn patch_has_removal(p: PatchNodeData) -> bool
    decreases p,
{
    p.removed.len() > 0 || exists|i: int|
        0 <= i < p.children.len() && patch_has_removal(#[trigger] p.children[i])
}

/// Building a live instance from a snapshot, assigning fresh ids in preorder
/// starting at `next`. Returns the instance and the next unused id.
pub open spec fn build_spec(s: SnapData, next: nat) -> (InstData, nat)
    decreases s, 1int, 0int,
{
    let r = build_seq_spec(s.children, 0, next + 1);
    (
        InstData {
            id: next,
            class_name: s.class_name,
            name: s.name,
            properties: s.properties,
            children: r.0,
        },
        r.1,
    )
}

/// Builds the snapshots `cs[i..]`, threading the fresh-id counter.
pub open spec fn build_seq_spec(cs: Seq<SnapData>, i: int, next: nat) -> (Seq<InstData>, nat)
    decreases cs, 0int, cs.len() - i,
{
    if !(0 <= i < cs.len()) {
        (Seq::empty(), next)
    } else {
        let hd = build_spec(cs[i], next);
        let tl = build_seq_spec(cs, i + 1, hd.1);
        (seq![hd.0] + tl.0, tl.1)
    }
}

/// Applying a patch node to a live subtree. `None` means the patch does not
/// fit the tree (a stale target). On success, returns the new subtree and the
/// next unused id. The patch must name the node's own id; its `children`
/// entries rewrite the leading children pairwise; `removed` must name, in
/// order, the ids of the children that follow the matched ones; children
/// beyond those are kept; instances built from `added` are appended.
pub open spec fn apply_node_spec(t: InstData, p: PatchNodeData, next: nat) -> Option<(InstData, nat)>
    decreases p, 1int, 0int,
{
    if p.id != t.id {
        None
    } else if p.children.len() + p.removed.len() > t.children.len() {
        None
    } else if !(forall|i: int|
        0 <= i < p.removed.len() ==> p.removed[i] == t.children[p.children.len() + i].id) {
        None
    } else {
        match apply_children_spec(t, p, 0, next) {
            None => None,
            Some(kids) => {
                let rest = t.children.subrange(
                    p.children.len() + p.removed.len() as int,
                    t.children.len() as int,
                );
                let fresh = build_seq_spec(p.added, 0, kids.1);
                let f = match p.update {
                    Some(u) => u,
                    None => inst_fields(t),
                };
                Some(
                    (
                        InstData {
                            id: t.id,
                            class_name: f.class_name,
                            name: f.name,
                            properties: f.properties,
                            children: kids.0 + rest + fresh.0,
                        },
                        fresh.1,
                    ),
                )
            },
        }
    }
}

/// Applies `p.children[i..]` to `t.children[i..]` pairwise, threading the
/// fresh-id counter.
pub open spec fn apply_children_spec(t: InstData, p: PatchNodeData, i: int, next: nat) -> Option<
    (Seq<InstData>, nat),
>
    decreases p, 0int, p.children.len() - i,
{
    if !(0 <= i < p.children.len()) {
        Some((Seq::empty(), next))
    } else if i >= t.children.len() {
        None
    } else {
        match apply_node_spec(t.children[i], p.children[i], next) {
            None => None,
            Some(hd) => match apply_children_spec(t, p, i + 1, hd.1) {
                None => None,
                Some(tl) => Some((seq![hd.0] + tl.0, tl.1)),
            },
        }
    }
}

/// Diffing against a structurally equal snapshot yields a patch with no
/// operations: no spurious updates.
pub proof fn lemma_diff_of_equal_is_noop(t: InstData, s: SnapData)
    requires
        inst_matches_snap(t, s),
    ensures
        patch_is_noop(diff_spec(t, s)),
    decreases t,
{
    let p = diff_spec(t, s);
    assert forall|i: int| 0 <= i < p.children.len() implies patch_is_noop(#[trigger] p.children[i]) by {
        assert(inst_matches_snap(t.children[i], s.children[i]));
        lemma_diff_of_equal_is_noop(t.children[i], s.children[i]);
    }
}

/// An instance built from a snapshot is structurally equal to it.
pub proof fn lemma_build_matches(s: SnapData, next: nat)
    ensures
        inst_matches_snap(build_spec(s, next).0, s),
    decreases s, 1int, 0int,
{
    lemma_build_seq_matches(s.children, 0, next + 1);
}

/// Each instance built from `cs[i..]` is structurally equal to its snapshot.
pub proof fn lemma_build_seq_matches(cs: Seq<SnapData>, i: int, next: nat)
    requires
        0 <= i <= cs.len(),
    ensures
        build_seq_spec(cs, i, next).0.len() == cs.len() - i,
        forall|j: int|
            0 <= j < cs.len() - i ==> inst_matches_snap(
                #[trigger] build_seq_spec(cs, i, next).0[j],
                cs[i + j],
            ),
    decreases cs, 0int, cs.len() - i,
{
    if i < cs.len() {
        let hd = build_spec(cs[i], next);
        lemma_build_matches(cs[i], next);
        lemma_build_seq_matches(cs, i + 1, hd.1);
    }
}

/// The diff/patch round trip: applying `diff_spec(t, s)` to `t` succeeds and
/// yields a subtree structurally equal to `s`, whatever fresh-id counter the
/// additions draw from.
pub proof fn lemma_diff_then_apply(t: InstData, s: SnapData, next: nat)
    ensures
        apply_node_spec(t, diff_spec(t, s), next) is Some,
        inst_matches_snap((apply_node_spec(t, diff_spec(t, s), next)->0).0, s),
    decreases t, 1int, 0int,
{
    let p = diff_spec(t, s);
    let m = matched_len(t, s);
    assert(p.children.len() + p.removed.len() == t.children.len());
    lemma_diff_then_apply_children(t, s, 0, next);
    let kids = apply_children_spec(t, p, 0, next)->0;
    let rest = t.children.subrange(p.children.len() + p.removed.len() as int, t.children.len() as int);
    assert(rest.len() == 0);
    lemma_build_seq_matches(p.added, 0, kids.1);
    let fresh = build_seq_spec(p.added, 0, kids.1);
    let r = (apply_node_spec(t, p, next)->0).0;
    assert(r.children =~= kids.0 + rest + fresh.0);
    assert(r.children.len() == s.children.len());
    assert forall|i: int| 0 <= i < r.children.len() implies inst_matches_snap(
        #[trigger] r.children[i],
        s.children[i],
    ) by {
        if i < m {
            assert(r.children[i] == kids.0[i]);
            assert(inst_matches_snap((apply_children_spec(t, p, 0, next)->0).0[i - 0], s.children[i]));
        } else {
            assert(r.children[i] == fresh.0[i - m]);
            assert(p.added[i - m] == s.children[i]);
        }
    }
}

/// Round trip for the matched child pairs `i..`.
pub proof fn lemma_diff_then_apply_children(t: InstData, s: SnapData, i: int, next: nat)
    requires
        0 <= i <= matched_len(t, s),
    ensures
        apply_children_spec(t, diff_spec(t, s), i, next) is Some,
        (apply_children_spec(t, diff_spec(t, s), i, next)->0).0.len() == matched_len(t, s) - i,
        forall|j: int|
            i <= j < matched_len(t, s) ==> inst_matches_snap(
                #[trigger] (apply_children_spec(t, diff_spec(t, s), i, next)->0).0[j - i],
                s.children[j],
            ),
    decreases t, 0int, matched_len(t, s) - i,
{
    let p = diff_spec(t, s);
    let m = matched_len(t, s);
    if i < m {
        assert(p.children[i] == diff_spec(t.children[i], s.children[i]));
        lemma_diff_then_apply(t.children[i], s.children[i], next);
        let hd = apply_node_spec(t.children[i], p.children[i], next)->0;
        lemma_diff_then_apply_children(t, s, i + 1, hd.1);
        let tl = (apply_children_spec(t, p, i + 1, hd.1)->0).0;
        let res = (apply_children_spec(t, p, i, next)->0).0;
        assert(res =~= seq![hd.0] + tl);
        assert forall|j: int| i <= j < m implies inst_matches_snap(
            #[trigger] res[j - i],
            s.children[j],
        ) by {
            if j == i {
                assert(res[0] == hd.0);
            } else {
                assert(res[j - i] == tl[j - i - 1]);
                assert(inst_matches_snap(tl[j - (i + 1)], s.children[j]));
            }
        }
    }
}

/// The first node with id `id` in a preorder walk of `t`.
pub open spec fn find_spec(t: InstData, id: nat) -> Option<InstData>
    decreases t, 1int, 0int,
{
    if t.id == id {
        Some(t)
    } else {
        find_in_children(t, 0, id)
    }
}

/// The first node with id `id` among the subtrees `t.children[i..]`.
pub open spec fn find_in_children(t: InstData, i: int, id: nat) -> Option<InstData>
    decreases t, 0int, t.children.len() - i,
{
    if !(0 <= i < t.children.len()) {
        None
    } else {
        match find_spec(t.children[i], id) {
            Some(r) => Some(r),
            None => find_in_children(t, i + 1, id),
        }
    }
}

/// The first node with id `id` in a preorder walk of `t`.
fn find_instance(t: &Instance, id: RbxId) -> (r: Option<&Instance>)
    ensures
        match r {
            Some(inst) => find_spec(t@, id as nat) == Some(inst@) && inst@.id == id as nat,
            None => find_spec(t@, id as nat) is None,
        },
    decreases *t, 1int, 0int,
{
    if t.id == id {
        Some(t)
    } else {
        find_instance_in_children(t, 0, id)
    }
}

/// The first node with id `id` among the subtrees `t.children[i..]`.
fn find_instance_in_children(t: &Instance, i: usize, id: RbxId) -> (r: Option<&Instance>)
    requires
        i <= t.children@.len(),
    ensures
        match r {
            Some(inst) => find_in_children(t@, i as int, id as nat) == Some(inst@) && inst@.id
                == id as nat,
            None => find_in_children(t@, i as int, id as nat) is None,
        },
    decreases *t, 0int, t.children@.len() - i,
{
    if i == t.children.len() {
        None
    } else {
        proof {
            assert(t@.children[i as int] == t.children@[i as int]@);
        }
        match find_instance(&t.children[i], id) {
            Some(inst) => Some(inst),
            None => find_instance_in_children(t, i + 1, id),
        }
    }
}

/// `build_seq_spec` never rewinds the fresh-id counter, and when it builds at
/// least one instance the first one takes the id `next` itself.
pub proof fn lemma_build_seq_mono(cs: Seq<SnapData>, i: int, next: nat)
    ensures
        build_seq_spec(cs, i, next).1 >= next,
        build_seq_spec(cs, i, next).0.len() == if 0 <= i <= cs.len() {
            cs.len() - i
        } else {
            0
        },
        0 <= i < cs.len() ==> build_seq_spec(cs, i, next).0[0].id == next,
    decreases cs, 0int, cs.len() - i,
{
    if 0 <= i < cs.len() {
        let hd = build_spec(cs[i], next);
        lemma_build_seq_mono(cs[i].children, 0, next + 1);
        lemma_build_seq_mono(cs, i + 1, hd.1);
    }
}

/// A successful `apply_children_spec` yields one rewritten child per patch
/// child and never rewinds the fresh-id counter.
pub proof fn lemma_apply_children_shape(t: InstData, p: PatchNodeData, i: int, next: nat)
    requires
        apply_children_spec(t, p, i, next) is Some,
    ensures
        (apply_children_spec(t, p, i, next)->0).0.len() == if 0 <= i <= p.children.len() {
            p.children.len() - i
        } else {
            0
        },
        (apply_children_spec(t, p, i, next)->0).1 >= next,
    decreases p, 0int, p.children.len() - i,
{
    if 0 <= i < p.children.len() {
        let hd = apply_node_spec(t.children[i], p.children[i], next)->0;
        lemma_apply_node_mono(t.children[i], p.children[i], next);
        lemma_apply_children_shape(t, p, i + 1, hd.1);
    }
}

/// A successful `apply_node_spec` never rewinds the fresh-id counter.
pub proof fn lemma_apply_node_mono(t: InstData, p: PatchNodeData, next: nat)
    requires
        apply_node_spec(t, p, next) is Some,
    ensures
        (apply_node_spec(t, p, next)->0).1 >= next,
    decreases p, 1int, 0int,
{
    lemma_apply_children_shape(t, p, 0, next);
    let kids = apply_children_spec(t, p, 0, next)->0;
    lemma_build_seq_mono(p.added, 0, kids.1);
}

/// A built instance is well formed, and all its ids lie in the consumed
/// range `[next, next')`.
pub proof fn lemma_build_wf(s: SnapData, next: nat)
    ensures
        inst_wf(build_spec(s, next).0),
        forall|x: nat| #[trigger] has_id(build_spec(s, next).0, x) ==> next <= x
            < build_spec(s, next).1,
    decreases s, 1int, 0int,
{
    let b = build_spec(s, next).0;
    let n2 = build_spec(s, next).1;
    lemma_build_seq_wf(s.children, 0, next + 1);
    let kids = build_seq_spec(s.children, 0, next + 1).0;
    assert(b.children == kids);
    assert forall|x: nat| #[trigger] has_id(b, x) implies next <= x < n2 by {
        if x != b.id {
            let i = choose|i: int| 0 <= i < b.children.len() && has_id(b.children[i], x);
            assert(has_id(kids[i], x));
        }
        lemma_build_seq_mono(s.children, 0, next + 1);
    }
    assert(inst_wf(b));
}

/// The instances built from `cs[i..]` are well formed, pairwise id-disjoint,
/// and use exactly the ids in the consumed range.
pub proof fn lemma_build_seq_wf(cs: Seq<SnapData>, i: int, next: nat)
    ensures
        forall|j: int|
            0 <= j < build_seq_spec(cs, i, next).0.len() ==> inst_wf(
                #[trigger] build_seq_spec(cs, i, next).0[j],
            ),
        forall|j: int, x: nat|
            0 <= j < build_seq_spec(cs, i, next).0.len() && #[trigger] has_id(
                build_seq_spec(cs, i, next).0[j],
                x,
            ) ==> next <= x < build_seq_spec(cs, i, next).1,
        forall|a: int, b: int, x: nat|
            0 <= a < build_seq_spec(cs, i, next).0.len() && 0 <= b < build_seq_spec(
                cs,
                i,
                next,
            ).0.len() && a != b ==> !(#[trigger] has_id(build_seq_spec(cs, i, next).0[a], x)
                && #[trigger] has_id(build_seq_spec(cs, i, next).0[b], x)),
    decreases cs, 0int, cs.len() - i,
{
    if 0 <= i < cs.len() {
        let hd = build_spec(cs[i], next);
        lemma_build_wf(cs[i], next);
        lemma_build_seq_mono(cs[i].children, 0, next + 1);
        lemma_build_seq_wf(cs, i + 1, hd.1);
        lemma_build_seq_mono(cs, i + 1, hd.1);
        let out = build_seq_spec(cs, i, next).0;
        let tl = build_seq_spec(cs, i + 1, hd.1).0;
        assert(out =~= seq![hd.0] + tl);
        assert forall|j: int| 0 <= j < out.len() implies inst_wf(#[trigger] out[j]) by {
            if j > 0 {
                assert(out[j] == tl[j - 1]);
            }
        }
        assert forall|j: int, x: nat|
            0 <= j < out.len() && #[trigger] has_id(out[j], x) implies next <= x
            < build_seq_spec(cs, i, next).1 by {
            if j > 0 {
                assert(out[j] == tl[j - 1]);
            }
        }
        assert forall|a: int, b: int, x: nat|
            0 <= a < out.len() && 0 <= b < out.len() && a != b implies !(#[trigger] has_id(
            out[a],
            x,
        ) && #[trigger] has_id(out[b], x)) by {
            if a > 0 {
                assert(out[a] == tl[a - 1]);
            }
            if b > 0 {
                assert(out[b] == tl[b - 1]);
            }
        }
    }
}

/// A successful application of a patch to a well-formed subtree yields a
/// well-formed subtree: every id is either an id the subtree already had or
/// one drawn from the consumed fresh range.
pub proof fn lemma_apply_node_wf(t: InstData, p: PatchNodeData, next: nat)
    requires
        inst_wf(t),
        ids_below(t, next),
        apply_node_spec(t, p, next) is Some,
    ensures
        inst_wf((apply_node_spec(t, p, next)->0).0),
        forall|x: nat| #[trigger] has_id((apply_node_spec(t, p, next)->0).0, x) ==> has_id(t, x)
            || next <= x < (apply_node_spec(t, p, next)->0).1,
    decreases p, 1int, 0int,
{
    let t2 = (apply_node_spec(t, p, next)->0).0;
    let n2 = (apply_node_spec(t, p, next)->0).1;
    let kids = apply_children_spec(t, p, 0, next)->0;
    let m = p.children.len() as int;
    let r = p.removed.len() as int;
    let rest = t.children.subrange(m + r, t.children.len() as int);
    let fresh = build_seq_spec(p.added, 0, kids.1);
    lemma_apply_children_shape(t, p, 0, next);
    lemma_build_seq_mono(p.added, 0, kids.1);
    assert forall|j: int| 0 <= j < t.children.len() implies ids_below(
        #[trigger] t.children[j],
        next,
    ) by {
        lemma_child_ids(t, j);
    }
    lemma_apply_children_wf(t, p, 0, next);
    lemma_build_seq_wf(p.added, 0, kids.1);
    assert(t2.children =~= kids.0 + rest + fresh.0);
    // Where each new child's ids come from: an old child's subtree, or the
    // consumed fresh range.
    let source = |j: int| if j < m { j } else { m + r + (j - m) };
    assert forall|j: int, x: nat|
        0 <= j < t2.children.len() && #[trigger] has_id(t2.children[j], x) implies x < n2 && (
        if j < m + rest.len() {
            has_id(t.children[source(j)], x) || next <= x
        } else {
            kids.1 <= x
        }) by {
        if j < m {
            assert(t2.children[j] == kids.0[j]);
            assert(has_id(kids.0[j], x));
        } else if j < m + rest.len() {
            assert(t2.children[j] == t.children[m + r + (j - m)]);
            assert(ids_below(t.children[m + r + (j - m)], next));
        } else {
            assert(t2.children[j] == fresh.0[j - m - rest.len()]);
            assert(has_id(fresh.0[j - m - rest.len()], x));
        }
    }
    // Pairwise disjointness of the new children's ids.
    assert forall|a: int, b: int, x: nat|
        0 <= a < t2.children.len() && 0 <= b < t2.children.len() && a != b implies !(
        #[trigger] has_id(t2.children[a], x) && #[trigger] has_id(t2.children[b], x)) by {
        if has_id(t2.children[a], x) && has_id(t2.children[b], x) {
            if a < m && b < m {
                assert(has_id(kids.0[a], x) && has_id(kids.0[b], x));
            } else if a >= m + rest.len() && b >= m + rest.len() {
                assert(has_id(fresh.0[a - m - rest.len()], x) && has_id(
                    fresh.0[b - m - rest.len()],
                    x,
                ));
            } else if a < m + rest.len() && b < m + rest.len() {
                // Two rewritten or kept children with distinct old sources.
                assert(source(a) != source(b));
                if has_id(t.children[source(a)], x) && has_id(t.children[source(b)], x) {
                } else {
                    // One of the two ids is fresh: only a rewritten child
                    // can carry it, and fresh ids of distinct rewritten
                    // children are separated by the counter threading.
                    assert(a < m || b < m);
                    if a < m && b < m {
                        assert(has_id(kids.0[a], x) && has_id(kids.0[b], x));
                    } else if a < m {
                        assert(has_id(t.children[source(b)], x));
                        assert(x < next);
                        assert(has_id(t.children[source(a)], x));
                    } else {
                        assert(has_id(t.children[source(a)], x));
                        assert(x < next);
                        assert(has_id(t.children[source(b)], x));
                    }
                }
            } else {
                // One side is freshly built, the other rewritten or kept:
                // the fresh range starts past every id the other can hold.
                let lo = if a < m + rest.len() { a } else { b };
                let hi = if a < m + rest.len() { b } else { a };
                assert(hi >= m + rest.len());
                assert(kids.1 <= x);
                assert(has_id(t.children[source(lo)], x) || next <= x);
                if has_id(t.children[source(lo)], x) {
                    assert(x < next);
                    assert(next <= kids.1);
                } else {
                    // A fresh id of a rewritten child lies below `kids.1`.
                    assert(lo < m + rest.len());
                    if lo < m {
                        assert(has_id(kids.0[lo], x));
                        assert(has_id(t.children[lo], x) || next <= x < kids.1);
                    } else {
                        assert(has_id(t.children[source(lo)], x));
                    }
                }
            }
        }
    }
    // The root id stays out of every child subtree.
    assert forall|j: int| 0 <= j < t2.children.len() implies !has_id(
        #[trigger] t2.children[j],
        t2.id,
    ) by {
        if has_id(t2.children[j], t2.id) {
            assert(has_id(t, t.id));
            assert(t.id < next);
            if j < m + rest.len() {
                assert(has_id(t.children[source(j)], t.id) || next <= t.id);
            } else {
                assert(kids.1 <= t.id);
            }
        }
    }
    assert forall|j: int| 0 <= j < t2.children.len() implies inst_wf(
        #[trigger] t2.children[j],
    ) by {
        if j < m {
            assert(t2.children[j] == kids.0[j]);
            assert(inst_wf(kids.0[j]));
        } else if j < m + rest.len() {
            assert(t2.children[j] == t.children[m + r + (j - m)]);
        } else {
            assert(t2.children[j] == fresh.0[j - m - rest.len()]);
            assert(inst_wf(fresh.0[j - m - rest.len()]));
        }
    }
    assert(inst_wf(t2));
    assert forall|x: nat| #[trigger] has_id(t2, x) implies has_id(t, x) || next <= x < n2 by {
        if x != t2.id {
            let j = choose|j: int| 0 <= j < t2.children.len() && has_id(t2.children[j], x);
            if j < m + rest.len() {
                if has_id(t.children[source(j)], x) {
                    lemma_child_ids(t, source(j));
                }
            }
        }
    }
}

/// The rewritten matched children are well formed, pairwise id-disjoint, and
/// draw ids only from their sources or the consumed fresh range.
pub proof fn lemma_apply_children_wf(t: InstData, p: PatchNodeData, i: int, next: nat)
    requires
        apply_children_spec(t, p, i, next) is Some,
        p.children.len() <= t.children.len(),
        forall|j: int| 0 <= j < t.children.len() ==> inst_wf(#[trigger] t.children[j]),
        forall|j: int| 0 <= j < t.children.len() ==> ids_below(#[trigger] t.children[j], next),
        forall|a: int, b: int, x: nat|
            0 <= a < t.children.len() && 0 <= b < t.children.len() && a != b ==> !(
            #[trigger] has_id(t.children[a], x) && #[trigger] has_id(t.children[b], x)),
    ensures
        forall|j: int|
            0 <= j < (apply_children_spec(t, p, i, next)->0).0.len() ==> inst_wf(
                #[trigger] (apply_children_spec(t, p, i, next)->0).0[j],
            ),
        forall|j: int, x: nat|
            0 <= j < (apply_children_spec(t, p, i, next)->0).0.len() && #[trigger] has_id(
                (apply_children_spec(t, p, i, next)->0).0[j],
                x,
            ) ==> has_id(t.children[i + j], x) || next <= x < (apply_children_spec(
                t,
                p,
                i,
                next,
            )->0).1,
        forall|a: int, b: int, x: nat|
            0 <= a < (apply_children_spec(t, p, i, next)->0).0.len() && 0 <= b
                < (apply_children_spec(t, p, i, next)->0).0.len() && a != b ==> !(
            #[trigger] has_id((apply_children_spec(t, p, i, next)->0).0[a], x) && #[trigger] has_id(
                (apply_children_spec(t, p, i, next)->0).0[b],
                x,
            )),
    decreases p, 0int, p.children.len() - i,
{
    if 0 <= i < p.children.len() {
        let hd = apply_node_spec(t.children[i], p.children[i], next)->0;
        lemma_apply_node_mono(t.children[i], p.children[i], next);
        lemma_apply_node_wf(t.children[i], p.children[i], next);
        lemma_apply_children_wf(t, p, i + 1, hd.1);
        lemma_apply_children_shape(t, p, i + 1, hd.1);
        assert forall|j: int| i + 1 <= j < t.children.len() implies ids_below(
            #[trigger] t.children[j],
            hd.1,
        ) by {
            assert(ids_below(t.children[j], next));
        }
        let out = (apply_children_spec(t, p, i, next)->0).0;
        let tl = (apply_children_spec(t, p, i + 1, hd.1)->0).0;
        assert(out =~= seq![hd.0] + tl);
        let nn = (apply_children_spec(t, p, i, next)->0).1;
        assert forall|j: int| 0 <= j < out.len() implies inst_wf(#[trigger] out[j]) by {
            if j > 0 {
                assert(out[j] == tl[j - 1]);
            }
        }
        assert forall|j: int, x: nat|
            0 <= j < out.len() && #[trigger] has_id(out[j], x) implies has_id(t.children[i + j], x)
            || next <= x < nn by {
            if j > 0 {
                assert(out[j] == tl[j - 1]);
                assert(has_id(t.children[i + 1 + (j - 1)], x) || hd.1 <= x < nn);
            } else {
                assert(has_id(t.children[i], x) || next <= x < hd.1);
            }
        }
        assert forall|a: int, b: int, x: nat|
            0 <= a < out.len() && 0 <= b < out.len() && a != b implies !(#[trigger] has_id(
            out[a],
            x,
        ) && #[trigger] has_id(out[b], x)) by {
            if has_id(out[a], x) && has_id(out[b], x) {
                if a > 0 {
                    assert(out[a] == tl[a - 1]);
                    assert(has_id(t.children[i + a], x) || hd.1 <= x < nn);
                } else {
                    assert(has_id(t.children[i], x) || next <= x < hd.1);
                }
                if b > 0 {
                    assert(out[b] == tl[b - 1]);
                    assert(has_id(t.children[i + b], x) || hd.1 <= x < nn);
                } else {
                    assert(has_id(t.children[i], x) || next <= x < hd.1);
                }
            }
        }
    }
}

/// A patch that removes an instance does not apply a second time: the tree it
/// produced no longer offers the removed id, whatever fresh-id counter the
/// second application would use.
pub proof fn lemma_reapply_fails(t: InstData, p: PatchNodeData, next: nat, next2: nat)
    requires
        inst_wf(t),
        ids_below(t, next),
        apply_node_spec(t, p, next) is Some,
        patch_has_removal(p),
    ensures
        apply_node_spec((apply_node_spec(t, p, next)->0).0, p, next2) is None,
    decreases p, 1int, 0int,
{
    let m = p.children.len() as int;
    let r = p.removed.len() as int;
    let t2 = (apply_node_spec(t, p, next)->0).0;
    let kids = apply_children_spec(t, p, 0, next)->0;
    let rest = t.children.subrange(m + r, t.children.len() as int);
    let fresh = build_seq_spec(p.added, 0, kids.1);
    lemma_apply_children_shape(t, p, 0, next);
    lemma_build_seq_mono(p.added, 0, kids.1);
    assert(t2.children =~= kids.0 + rest + fresh.0);
    if r > 0 {
        if m + r <= t2.children.len() {
            // The first id the patch removes is no longer the id of the
            // child at that position: that child now is either a kept later
            // child (distinct id by well-formedness) or a freshly built one
            // (id at or above the old fresh-id counter).
            let x = t.children[m].id;
            assert(p.removed[0] == x);
            assert(has_id(t.children[m], x));
            assert(has_id(t, x));
            if rest.len() > 0 {
                assert(t2.children[m] == t.children[m + r]);
                assert(has_id(t.children[m + r], t.children[m + r].id));
                assert(t2.children[m].id != x);
            } else {
                assert(t2.children[m] == fresh.0[0]);
                assert(fresh.0[0].id == kids.1);
                assert(x < next);
                assert(t2.children[m].id != x);
            }
            assert(!(forall|i: int|
                0 <= i < p.removed.len() ==> p.removed[i] == t2.children[m + i].id));
        }
    } else {
        let k = choose|k: int| 0 <= k < p.children.len() && patch_has_removal(p.children[k]);
        if apply_children_spec(t2, p, 0, next2) is Some {
            assert forall|j: int| 0 <= j < p.children.len() implies ids_below(
                #[trigger] t.children[j],
                next,
            ) by {
                lemma_child_ids(t, j);
            }
            lemma_reapply_fails_children(t, p, t2, 0, next, next2, k);
        }
    }
}

/// Helper for `lemma_reapply_fails`: replays the first application of the
/// matched children from position `i` on, and shows the second application of
/// those children fails at the child patch `k` that removes an instance.
pub proof fn lemma_reapply_fails_children(
    t: InstData,
    p: PatchNodeData,
    u: InstData,
    i: int,
    next: nat,
    next2: nat,
    k: int,
)
    requires
        0 <= i <= p.children.len(),
        i <= k < p.children.len(),
        p.children.len() <= t.children.len(),
        apply_children_spec(t, p, i, next) is Some,
        patch_has_removal(p.children[k]),
        forall|j: int| i <= j < p.children.len() ==> inst_wf(#[trigger] t.children[j]),
        forall|j: int| i <= j < p.children.len() ==> ids_below(#[trigger] t.children[j], next),
        p.children.len() <= u.children.len(),
        forall|j: int|
            i <= j < p.children.len() ==> u.children[j] == (apply_children_spec(
                t,
                p,
                i,
                next,
            )->0).0[j - i],
    ensures
        apply_children_spec(u, p, i, next2) is None,
    decreases p, 0int, p.children.len() - i,
{
    let hd = apply_node_spec(t.children[i], p.children[i], next)->0;
    lemma_apply_node_mono(t.children[i], p.children[i], next);
    lemma_apply_children_shape(t, p, i + 1, hd.1);
    let tl = (apply_children_spec(t, p, i + 1, hd.1)->0).0;
    let ks = (apply_children_spec(t, p, i, next)->0).0;
    assert(ks =~= seq![hd.0] + tl);
    assert(u.children[i] == hd.0);
    if i == k {
        lemma_reapply_fails(t.children[i], p.children[i], next, next2);
        assert(apply_node_spec(u.children[i], p.children[i], next2) is None);
    } else {
        match apply_node_spec(u.children[i], p.children[i], next2) {
            None => {},
            Some(hd2) => {
                assert forall|j: int| i + 1 <= j < p.children.len() implies ids_below(
                    #[trigger] t.children[j],
                    hd.1,
                ) by {
                    assert(ids_below(t.children[j], next));
                }
                assert forall|j: int|
                    i + 1 <= j < p.children.len() implies u.children[j] == (apply_children_spec(
                    t,
                    p,
                    i + 1,
                    hd.1,
                )->0).0[j - (i + 1)] by {
                    assert(u.children[j] == ks[j - i]);
                    assert(ks[j - i] == tl[j - i - 1]);
                }
                lemma_reapply_fails_children(t, p, u, i + 1, hd.1, hd2.1, k);
            },
        }
    }
}

/// Why applying a patch failed. The tree is left unchanged in either case.
#[derive(Clone, Copy, Debug, PartialEq, Eq, Structural)]
pub enum PatchError {
    /// An operation referenced an id or a position that the tree no longer
    /// offers: the patch was computed against a superseded tree state.
    StaleTarget,
    /// Building the added instances would exhaust the id space.
    IdSpaceExhausted,
}

/// Equality of two property values, by variant and content.
pub fn prop_value_eq(a: &PropValue, b: &PropValue) -> (r: bool)
    ensures
        r == (a@ == b@),
{
    match (a, b) {
        (PropValue::Str(x), PropValue::Str(y)) => *x == *y,
        (PropValue::Bool(x), PropValue::Bool(y)) => *x == *y,
        (PropValue::Int(x), PropValue::Int(y)) => *x == *y,
        _ => false,
    }
}

/// Equality of two property lists, by name and value, in order.
pub fn props_eq(a: &Vec<Property>, b: &Vec<Property>) -> (r: bool)
    ensures
        r == (props_view(a@) == props_view(b@)),
{
    if a.len() != b.len() {
        proof {
            assert(props_view(a@).len() != props_view(b@).len());
        }
        return false;
    }
    let mut i: usize = 0;
    while i < a.len()
        invariant
            i <= a.len(),
            a@.len() == b@.len(),
            forall|j: int| 0 <= j < i as int ==> props_view(a@)[j] == props_view(b@)[j],
        decreases a.len() - i,
    {
        let name_ok = a[i].name == b[i].name;
        let value_ok = prop_value_eq(&a[i].value, &b[i].value);
        if !name_ok || !value_ok {
            proof {
                assert(props_view(a@)[i as int] != props_view(b@)[i as int]);
            }
            return false;
        }
        proof {
            assert(props_view(a@)[i as int] =~= props_view(b@)[i as int]);
        }
        i = i + 1;
    }
    proof {
        assert(props_view(a@) =~= props_view(b@));
    }
    true
}

/// The structural diff of a live subtree against a snapshot. A pure function
/// of its arguments, as stated by `diff_spec`.
pub fn diff(t: &Instance, s: &InstanceSnapshot) -> (p: PatchNode)
    ensures
        p@ == diff_spec(t@, s@),
    decreases *t, 1int, 0int,
{
    let m: usize = if t.children.len() <= s.children.len() {
        t.children.len()
    } else {
        s.children.len()
    };
    let fields_same = t.class_name == s.class_name && t.name == s.name && props_eq(
        &t.properties,
        &s.properties,
    );
    proof {
        assert(props_view(t.properties@) =~= t@.properties);
        assert(props_view(s.properties@) =~= s@.properties);
        assert(fields_same == (inst_fields(t@) == snap_fields(s@)));
    }
    let update = if fields_same {
        None
    } else {
        Some(
            UpdatedFields {
                class_name: s.class_name.clone(),
                name: s.name.clone(),
                properties: duplicate_properties(&s.properties),
            },
        )
    };
    let children = diff_children(t, s, 0);
    let mut removed: Vec<RbxId> = Vec::new();
    let mut j: usize = m;
    while j < t.children.len()
        invariant
            m <= j <= t.children.len(),
            removed@.len() == j - m,
            forall|k: int| 0 <= k < removed@.len() ==> removed@[k] == t.children@[m + k].id,
        decreases t.children.len() - j,
    {
        removed.push(t.children[j].id);
        j = j + 1;
    }
    let mut added: Vec<InstanceSnapshot> = Vec::new();
    let mut j: usize = m;
    while j < s.children.len()
        invariant
            m <= j <= s.children.len(),
            added@.len() == j - m,
            forall|k: int| 0 <= k < added@.len() ==> added@[k]@ == s.children@[m + k]@,
        decreases s.children.len() - j,
    {
        added.push(s.children[j].duplicate());
        j = j + 1;
    }
    let p = PatchNode { id: t.id, update, children, removed, added };
    proof {
        let sp = diff_spec(t@, s@);
        assert(m as int == matched_len(t@, s@));
        match &p.update {
            Some(u) => {
                assert(props_view(u.properties@) =~= s@.properties);
                assert(u@ =~= snap_fields(s@));
            },
            None => {},
        }
        assert(p@.children =~= sp.children);
        assert forall|k: int| 0 <= k < p@.removed.len() implies p@.removed[k] == sp.removed[k] by {
            assert(p@.removed[k] == p.removed@[k] as nat);
            assert(t@.children[m as int + k] == t.children@[m as int + k]@);
        }
        assert(p@.removed =~= sp.removed);
        assert forall|k: int| 0 <= k < p@.added.len() implies p@.added[k] == sp.added[k] by {
            assert(p.added@[k]@ == s.children@[m as int + k]@);
            assert(sp.added[k] == s@.children[m as int + k]);
        }
        assert(p@.added =~= sp.added);
        assert(p@ =~= sp);
    }
    p
}

/// Diffs the matched child pairs from position `i` on.
fn diff_children(t: &Instance, s: &InstanceSnapshot, i: usize) -> (r: Vec<PatchNode>)
    requires
        i <= matched_len(t@, s@),
    ensures
        r@.len() == matched_len(t@, s@) - i,
        forall|j: int|
            0 <= j < r@.len() ==> r@[j]@ == diff_spec(
                t@.children[i + j],
                s@.children[i + j],
            ),
    decreases *t, 0int, matched_len(t@, s@) - i,
{
    if i >= t.children.len() || i >= s.children.len() {
        Vec::new()
    } else {
        let hd = diff(&t.children[i], &s.children[i]);
        let mut r = diff_children(t, s, i + 1);
        r.insert(0, hd);
        r
    }
}

/// Builds a live instance from a snapshot, taking `next` as its id and
/// assigning ids to its descendants in preorder. Fails only when the id
/// space runs out.
fn build_instance(s: &InstanceSnapshot, next: u64) -> (r: Result<(Instance, u64), PatchError>)
    ensures
        match r {
            Ok(pr) => build_spec(s@, next as nat) == ((pr.0@, pr.1 as nat)),
            Err(e) => e == PatchError::IdSpaceExhausted && build_spec(s@, next as nat).1
                > u64::MAX as nat,
        },
    decreases *s, 1int, 0int,
{
    if next == u64::MAX {
        proof {
            crate::rbx_snapshot::lemma_build_seq_mono(s@.children, 0, next as nat + 1);
        }
        return Err(PatchError::IdSpaceExhausted);
    }
    let built = build_children(&s.children, 0, next + 1);
    match built {
        Err(e) => {
            proof {
                assert(snaps_view(s.children@) =~= s@.children);
            }
            Err(e)
        },
        Ok(pr) => {
            let inst = Instance {
                id: next,
                class_name: s.class_name.clone(),
                name: s.name.clone(),
                properties: duplicate_properties(&s.properties),
                children: pr.0,
            };
            proof {
                let sp = build_spec(s@, next as nat);
                assert(snaps_view(s.children@) =~= s@.children);
                assert(props_view(inst.properties@) =~= s@.properties);
                assert(inst@.children =~= sp.0.children);
                assert(inst@ =~= sp.0);
            }
            Ok((inst, pr.1))
        },
    }
}

/// Builds the snapshots `cs[i..]`, threading the fresh-id counter.
fn build_children(cs: &Vec<InstanceSnapshot>, i: usize, next: u64) -> (r: Result<
    (Vec<Instance>, u64),
    PatchError,
>)
    requires
        i <= cs.len(),
    ensures
        match r {
            Ok(pr) => {
                &&& pr.0@.len() == build_seq_spec(snaps_view(cs@), i as int, next as nat).0.len()
                &&& forall|j: int|
                    0 <= j < pr.0@.len() ==> pr.0@[j]@ == build_seq_spec(
                        snaps_view(cs@),
                        i as int,
                        next as nat,
                    ).0[j]
                &&& pr.1 as nat == build_seq_spec(snaps_view(cs@), i as int, next as nat).1
            },
            Err(e) => e == PatchError::IdSpaceExhausted && build_seq_spec(
                snaps_view(cs@),
                i as int,
                next as nat,
            ).1 > u64::MAX as nat,
        },
    decreases *cs, 0int, cs.len() - i,
{
    if i == cs.len() {
        Ok((Vec::new(), next))
    } else {
        proof {
            assert(snaps_view(cs@)[i as int] == cs@[i as int]@);
        }
        match build_instance(&cs[i], next) {
            Err(e) => {
                proof {
                    lemma_build_seq_mono(
                        snaps_view(cs@),
                        i as int + 1,
                        build_spec(snaps_view(cs@)[i as int], next as nat).1,
                    );
                }
                Err(e)
            },
            Ok(hd) => {
                proof {
                    lemma_build_seq_mono(snaps_view(cs@), i as int + 1, hd.1 as nat);
                }
                match build_children(cs, i + 1, hd.1) {
                    Err(e) => Err(e),
                    Ok(tl) => {
                        let mut v = tl.0;
                        v.insert(0, hd.0);
                        proof {
                            let sp = build_seq_spec(snaps_view(cs@), i as int, next as nat);
                            assert(v@.len() == sp.0.len());
                            assert forall|j: int| 0 <= j < v@.len() implies v@[j]@ == sp.0[j] by {
                                if j == 0 {
                                    assert(v@[0] == hd.0);
                                } else {
                                    assert(v@[j] == tl.0@[j - 1]);
                                }
                            }
                        }
                        Ok((v, tl.1))
                    },
                }
            },
        }
    }
}

/// Applies a patch node to a live subtree, returning the rewritten subtree
/// and the next unused id. `StaleTarget` exactly when `apply_node_spec` says
/// the patch does not fit; `IdSpaceExhausted` only when the additions would
/// run past the largest id.
fn apply_node(t: &Instance, p: &PatchNode, next: u64) -> (r: Result<(Instance, u64), PatchError>)
    ensures
        match r {
            Ok(pr) => apply_node_spec(t@, p@, next as nat) == Some((pr.0@, pr.1 as nat)),
            Err(PatchError::StaleTarget) => apply_node_spec(t@, p@, next as nat) is None,
            Err(PatchError::IdSpaceExhausted) => apply_node_spec(t@, p@, next as nat) is Some
                ==> (apply_node_spec(t@, p@, next as nat)->0).1 > u64::MAX as nat,
        },
    decreases *p, 1int, 0int,
{
    if p.id != t.id {
        return Err(PatchError::StaleTarget);
    }
    let m = p.children.len();
    let rm = p.removed.len();
    if m > t.children.len() || t.children.len() - m < rm {
        return Err(PatchError::StaleTarget);
    }
    let mut i: usize = 0;
    while i < rm
        invariant
            i <= rm,
            rm == p.removed.len(),
            m == p.children.len(),
            m + rm <= t.children.len(),
            forall|j: int| 0 <= j < i as int ==> p@.removed[j] == t@.children[m + j].id,
        decreases rm - i,
    {
        let same = p.removed[i] == t.children[m + i].id;
        proof {
            assert(p@.removed[i as int] == p.removed@[i as int] as nat);
            assert(t@.children[m as int + i as int] == t.children@[m as int + i as int]@);
            assert(t@.children[m as int + i as int].id == t.children@[m as int + i as int].id as nat);
        }
        if !same {
            proof {
                assert(p@.removed[i as int] != t@.children[m as int + i as int].id);
            }
            return Err(PatchError::StaleTarget);
        }
        i = i + 1;
    }
    let kids = match apply_children(t, p, 0, next) {
        Ok(pr) => pr,
        Err(e) => {
            proof {
                if e == PatchError::IdSpaceExhausted {
                    let cs = apply_children_spec(t@, p@, 0, next as nat);
                    if cs is Some {
                        lemma_build_seq_mono(p@.added, 0, (cs->0).1);
                    }
                }
            }
            return Err(e);
        },
    };
    let mut children = kids.0;
    let ghost kept = children@;
    let mut j: usize = m + rm;
    while j < t.children.len()
        invariant
            m + rm <= j <= t.children.len(),
            children@.len() == kept.len() + (j - m - rm),
            children@.subrange(0, kept.len() as int) =~= kept,
            forall|k: int|
                kept.len() <= k < children@.len() ==> children@[k]@ == t.children@[m + rm + (
                k - kept.len())]@,
        decreases t.children.len() - j,
    {
        children.push(t.children[j].duplicate());
        j = j + 1;
    }
    let fresh = match build_children(&p.added, 0, kids.1) {
        Ok(pr) => pr,
        Err(e) => {
            proof {
                assert(snaps_view(p.added@) =~= p@.added);
            }
            return Err(e);
        },
    };
    let ghost with_rest = children@;
    let ghost fresh_insts = fresh.0@;
    let mut fs = fresh.0;
    proof {
        assert(snaps_view(p.added@) =~= p@.added);
    }
    children.append(&mut fs);
    let fields = match &p.update {
        Some(u) => (u.class_name.clone(), u.name.clone(), duplicate_properties(&u.properties)),
        None => (
            t.class_name.clone(),
            t.name.clone(),
            duplicate_properties(&t.properties),
        ),
    };
    let out = Instance {
        id: t.id,
        class_name: fields.0,
        name: fields.1,
        properties: fields.2,
        children,
    };
    proof {
        let sp = (apply_node_spec(t@, p@, next as nat)->0).0;
        let kids_sp = apply_children_spec(t@, p@, 0, next as nat)->0;
        let rest_sp = t@.children.subrange(
            p@.children.len() + p@.removed.len() as int,
            t@.children.len() as int,
        );
        let fresh_sp = build_seq_spec(p@.added, 0, kids_sp.1);
        assert(out@.children.len() == sp.children.len());
        assert forall|k: int| 0 <= k < out@.children.len() implies out@.children[k]
            == sp.children[k] by {
            assert(out@.children[k] == out.children@[k]@);
            if k < kept.len() {
                assert(out.children@[k] == kept[k]);
            } else if k < with_rest.len() {
                assert(out.children@[k]@ == t.children@[m as int + rm as int + (k
                    - kept.len())]@);
                assert(rest_sp[k - kept.len()] == t@.children[m as int + rm as int + (k
                    - kept.len())]);
            } else {
                assert(out.children@[k] == fresh_insts[k - with_rest.len()]);
            }
        }
        assert(out@.children =~= sp.children);
        match &p.update {
            Some(u) => {
                assert(props_view(u.properties@) =~= u@.properties);
            },
            None => {
                assert(props_view(t.properties@) =~= t@.properties);
            },
        }
        assert(out@.properties =~= props_view(fields.2@));
        assert(out@ =~= sp);
    }
    Ok((out, fresh.1))
}

/// Applies `p.children[i..]` to `t.children[i..]` pairwise, threading the
/// fresh-id counter.
fn apply_children(t: &Instance, p: &PatchNode, i: usize, next: u64) -> (r: Result<
    (Vec<Instance>, u64),
    PatchError,
>)
    requires
        i <= p.children.len(),
        p.children.len() <= t.children.len(),
    ensures
        match r {
            Ok(pr) => {
                &&& apply_children_spec(t@, p@, i as int, next as nat) is Some
                &&& pr.0@.len() == (apply_children_spec(t@, p@, i as int, next as nat)->0).0.len()
                &&& forall|j: int|
                    0 <= j < pr.0@.len() ==> pr.0@[j]@ == (apply_children_spec(
                        t@,
                        p@,
                        i as int,
                        next as nat,
                    )->0).0[j]
                &&& pr.1 as nat == (apply_children_spec(t@, p@, i as int, next as nat)->0).1
            },
            Err(PatchError::StaleTarget) => apply_children_spec(t@, p@, i as int, next as nat)
                is None,
            Err(PatchError::IdSpaceExhausted) => apply_children_spec(t@, p@, i as int, next as nat)
                is Some ==> (apply_children_spec(t@, p@, i as int, next as nat)->0).1
                > u64::MAX as nat,
        },
    decreases *p, 0int, p.children.len() - i,
{
    if i == p.children.len() {
        proof {
            let sp = apply_children_spec(t@, p@, i as int, next as nat)->0;
            assert(sp.0 =~= Seq::<InstData>::empty());
        }
        Ok((Vec::new(), next))
    } else {
        proof {
            assert(p@.children[i as int] == p.children@[i as int]@);
            assert(t@.children[i as int] == t.children@[i as int]@);
        }
        match apply_node(&t.children[i], &p.children[i], next) {
            Err(e) => {
                proof {
                    if e == PatchError::IdSpaceExhausted {
                        let hd_sp = apply_node_spec(
                            t@.children[i as int],
                            p@.children[i as int],
                            next as nat,
                        );
                        if hd_sp is Some && apply_children_spec(
                            t@,
                            p@,
                            i as int + 1,
                            (hd_sp->0).1,
                        ) is Some {
                            lemma_apply_children_shape(t@, p@, i as int + 1, (hd_sp->0).1);
                        }
                    }
                }
                Err(e)
            },
            Ok(hd) => {
                match apply_children(t, p, i + 1, hd.1) {
                    Err(e) => Err(e),
                    Ok(tl) => {
                        let mut v = tl.0;
                        v.insert(0, hd.0);
                        proof {
                            let sp = apply_children_spec(t@, p@, i as int, next as nat)->0;
                            assert(v@.len() == sp.0.len());
                            assert forall|j: int| 0 <= j < v@.len() implies v@[j]@ == sp.0[j] by {
                                if j == 0 {
                                    assert(v@[0] == hd.0);
                                } else {
                                    assert(v@[j] == tl.0@[j - 1]);
                                }
                            }
                        }
                        Ok((v, tl.1))
                    },
                }
            },
        }
    }
}

/// The live object tree: a root instance owning all others, plus the counter
/// from which fresh ids are assigned.
pub struct RbxTree {
    pub root: Instance,
    pub next_id: u64,
}

impl RbxTree {
    /// No id occurs twice in the tree and the fresh-id counter is ahead of
    /// every id in it.
    pub open spec fn wf(&self) -> bool {
        inst_wf(self.root@) && ids_below(self.root@, self.next_id as nat)
    }

    /// A tree holding a single root instance with no properties.
    pub fn new(root_class: String, root_name: String) -> (t: RbxTree)
        ensures
            t.root@.class_name == root_class@,
            t.root@.name == root_name@,
            t.root@.properties.len() == 0,
            t.root@.children.len() == 0,
            t.root.id == 0,
            t.next_id == 1,
            t.wf(),
    {
        let root = Instance {
            id: 0,
            class_name: root_class,
            name: root_name,
            properties: Vec::new(),
            children: Vec::new(),
        };
        let t = RbxTree { root, next_id: 1 };
        proof {
            assert(t.root@.children.len() == 0);
            assert forall|x: nat| #[trigger] has_id(t.root@, x) implies x < 1 by {
                assert(x == t.root@.id);
            }
        }
        t
    }

    /// The live node with id `id`, if the tree holds one: the first in a
    /// preorder walk.
    pub fn get_instance(&self, id: RbxId) -> (r: Option<&Instance>)
        ensures
            match r {
                Some(inst) => find_spec(self.root@, id as nat) == Some(inst@) && inst@.id
                    == id as nat,
                None => find_spec(self.root@, id as nat) is None,
            },
    {
        find_instance(&self.root, id)
    }

    /// Applies a patch rooted at the tree's root, all-or-nothing. On success
    /// the tree becomes exactly what `apply_node_spec` describes and stays
    /// well formed; on failure it is unchanged, with `StaleTarget` exactly
    /// when the patch does not fit the tree.
    pub fn apply_patch(&mut self, p: &PatchNode) -> (r: Result<(), PatchError>)
        ensures
            old(self).wf() && r is Ok ==> final(self).wf(),
            match r {
                Ok(()) => {
                    &&& apply_node_spec(old(self).root@, p@, old(self).next_id as nat) is Some
                    &&& final(self).root@ == (apply_node_spec(
                        old(self).root@,
                        p@,
                        old(self).next_id as nat,
                    )->0).0
                    &&& final(self).next_id as nat == (apply_node_spec(
                        old(self).root@,
                        p@,
                        old(self).next_id as nat,
                    )->0).1
                },
                Err(PatchError::StaleTarget) => apply_node_spec(
                    old(self).root@,
                    p@,
                    old(self).next_id as nat,
                ) is None && *final(self) == *old(self),
                Err(PatchError::IdSpaceExhausted) => (apply_node_spec(
                    old(self).root@,
                    p@,
                    old(self).next_id as nat,
                ) is Some ==> (apply_node_spec(old(self).root@, p@, old(self).next_id as nat)->0).1
                    > u64::MAX as nat) && *final(self) == *old(self),
            },
    {
        match apply_node(&self.root, p, self.next_id) {
            Ok(pr) => {
                proof {
                    if old(self).wf() {
                        lemma_apply_node_wf(old(self).root@, p@, old(self).next_id as nat);
                        lemma_apply_node_mono(old(self).root@, p@, old(self).next_id as nat);
                    }
                }
                self.root = pr.0;
                self.next_id = pr.1;
                Ok(())
            },
            Err(e) => Err(e),
        }
    }
}

} // verus!
