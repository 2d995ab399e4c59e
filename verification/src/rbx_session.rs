//! The session: the orchestrator binding watcher events to tree mutations
//! and message publication for one sync lifetime.
//!
//! A batch of raw path-change events is processed strictly sequentially:
//! each affected path is expanded through the owning middleware's
//! `change_affects_paths`, the in-memory filesystem is refreshed for it, the
//! middleware re-derives an instance snapshot, and the difference against
//! the corresponding live subtree becomes one patch. The batch's patches are
//! applied all-or-nothing — on any stale target the live tree is left
//! exactly as it was — then the path map is rebound for added and removed
//! instances, and one message carrying the batch's patches is published.
//! A path with no middleware match produces no patch: it is opaque to the
//! tree.

use vstd::prelude::*;
use vstd::string::StrSliceExecFns;
use vstd::string::StringExecFns;
use crate::imfs::{Imfs, ImfsFetcher};
use crate::message_queue::MessageQueue;
use crate::path_map::{PathBinding, PathMap};
use crate::rbx_snapshot::{RbxTree, PatchNode, PatchError, diff, find_spec, apply_all_spec, patch_views, lemma_apply_all_snoc, lemma_apply_node_mono};
use crate::snapshot_middleware::{SnapshotMiddleware, ScriptMiddleware, FolderMiddleware, check_lua_name, snapshot_from_entry};
use crate::tree::{has_id, ids_below, strictly_below, Instance, InstanceSnapshot, InstData, RbxId};

verus! {

/// What kind of change the watcher reported for a path.
#[derive(Clone, Copy, Debug, PartialEq, Eq, Structural)]
pub enum FsEventKind {
    Created,
    Modified,
    Removed,
}

/// One raw path-change event from the watcher.
pub struct FsEvent {
    pub path: String,
    pub kind: FsEventKind,
}

/// Why a batch failed. The live tree is unchanged in either case.
#[derive(Clone, Copy, Debug, PartialEq, Eq, Structural)]
pub enum SessionError {
    /// The combined patch did not apply; the next cycle must re-snapshot
    /// the affected subtree.
    PatchFailed(PatchError),
    /// The message sequence space is used up.
    QueueExhausted,
}

/// How many directory levels one refresh descends.
pub const REFRESH_DEPTH: usize = 64;

/// The character position after the last `/` in `p`, or 0.
pub open spec fn after_last_slash(p: Seq<char>, i: int) -> int
    decreases i,
{
    if i <= 0 {
        0
    } else if p[i - 1] == '/' {
        i
    } else {
        after_last_slash(p, i - 1)
    }
}

/// The character position after the last `/`, scanned left to right.
fn scan_after_last_slash(path: &String) -> (cut: usize)
    ensures
        cut as int == after_last_slash(path@, path@.len() as int),
        cut <= path@.len(),
{
    let n = path.as_str().unicode_len();
    let mut cut: usize = 0;
    let mut i: usize = 0;
    while i < n
        invariant
            i <= n,
            n == path@.len(),
            cut as int == after_last_slash(path@, i as int),
            cut <= i,
        decreases n - i,
    {
        if path.as_str().get_char(i) == '/' {
            cut = i + 1;
        }
        i = i + 1;
    }
    cut
}

/// The file name of a path: everything after the last `/`.
pub fn path_file_name(path: &String) -> (r: String)
    ensures
        r@ == path@.subrange(after_last_slash(path@, path@.len() as int), path@.len() as int),
{
    let n = path.as_str().unicode_len();
    let cut = scan_after_last_slash(path);
    String::from_str(path.as_str().substring_char(cut, n))
}

/// The directory part of a path: everything before the last `/`, without a
/// trailing slash; empty when the path has no `/`.
pub fn path_parent(path: &String) -> (r: String)
    ensures
        r@ == path@.subrange(
            0,
            if after_last_slash(path@, path@.len() as int) > 0 {
                after_last_slash(path@, path@.len() as int) - 1
            } else {
                0
            },
        ),
{
    let cut = scan_after_last_slash(path);
    if cut == 0 {
        String::from_str(path.as_str().substring_char(0, 0))
    } else {
        String::from_str(path.as_str().substring_char(0, cut - 1))
    }
}

/// A patch node that changes nothing at its target.
fn noop_patch(id: RbxId) -> (p: PatchNode)
    ensures
        p@.id == id as nat,
        p@.update is None,
        p@.children.len() == 0,
        p@.removed.len() == 0,
        p@.added.len() == 0,
{
    let p = PatchNode {
        id,
        update: None,
        children: Vec::new(),
        removed: Vec::new(),
        added: Vec::new(),
    };
    proof {
        assert(p@.children =~= Seq::<crate::rbx_snapshot::PatchNodeData>::empty());
    }
    p
}

/// Wraps `leaf` — a patch targeting the node with id `target` — in no-op
/// patch nodes along the path from `t` down to that node, so that the whole
/// patch can be applied at `t`. `None` when `t`'s subtree has no such node.
fn wrap_patch_at(t: &Instance, target: RbxId, leaf: PatchNode) -> (r: Option<PatchNode>)
    requires
        leaf@.id == target as nat,
    ensures
        r is Some <==> find_spec(t@, target as nat) is Some,
        r is Some ==> (r->0)@.id == t@.id,
    decreases *t, 1int, 0int,
{
    if t.id == target {
        proof {
            assert(find_spec(t@, target as nat) is Some);
        }
        return Some(leaf);
    }
    wrap_patch_in_children(t, 0, target, leaf)
}

/// Wraps `leaf` under whichever of `t.children[i..]` holds the target.
fn wrap_patch_in_children(t: &Instance, i: usize, target: RbxId, leaf: PatchNode) -> (r: Option<
    PatchNode,
>)
    requires
        leaf@.id == target as nat,
        i <= t.children@.len(),
        t@.id != target as nat,
    ensures
        r is Some <==> crate::rbx_snapshot::find_in_children(t@, i as int, target as nat) is Some,
        r is Some ==> (r->0)@.id == t@.id,
    decreases *t, 0int, t.children@.len() - i,
{
    if i == t.children.len() {
        return None;
    }
    proof {
        assert(t@.children[i as int] == t.children@[i as int]@);
    }
    match wrap_patch_at(&t.children[i], target, leaf.duplicate()) {
        Some(inner) => {
            let mut children: Vec<PatchNode> = Vec::new();
            let mut j: usize = 0;
            while j < i
                invariant
                    j <= i,
                    i < t.children@.len(),
                    children@.len() == j as int,
                decreases i - j,
            {
                children.push(noop_patch(t.children[j].id));
                j = j + 1;
            }
            children.push(inner);
            let p = PatchNode {
                id: t.id,
                update: None,
                children,
                removed: Vec::new(),
                added: Vec::new(),
            };
            Some(p)
        },
        None => wrap_patch_in_children(t, i + 1, target, leaf),
    }
}

/// A patch that removes the node with id `target` from its parent's
/// children, wrapped so it applies at `t`. `None` when no strict descendant
/// of `t` has that id.
fn remove_patch_at(t: &Instance, target: RbxId) -> (r: Option<PatchNode>)
    ensures
        r is Some ==> (r->0)@.id == t@.id && crate::rbx_snapshot::patch_has_removal((r->0)@)
            && crate::tree::has_id(t@, target as nat),
        r is None ==> !strictly_below(t@, target as nat),
    decreases *t, 1int, 0int,
{
    let mut j: usize = 0;
    while j < t.children.len()
        invariant
            j <= t.children@.len(),
            forall|x: int| 0 <= x < j as int ==> (#[trigger] t@.children[x]).id != target as nat,
        decreases t.children@.len() - j,
    {
        if t.children[j].id == target {
            let mut children: Vec<PatchNode> = Vec::new();
            let mut k: usize = 0;
            while k < j
                invariant
                    k <= j,
                    j < t.children@.len(),
                    children@.len() == k as int,
                decreases j - k,
            {
                children.push(noop_patch(t.children[k].id));
                k = k + 1;
            }
            let mut removed: Vec<RbxId> = Vec::new();
            removed.push(target);
            let p = PatchNode {
                id: t.id,
                update: None,
                children,
                removed,
                added: Vec::new(),
            };
            proof {
                assert(p@.removed.len() == 1);
                assert(t@.children[j as int] == t.children@[j as int]@);
                assert(crate::tree::has_id(t@.children[j as int], target as nat));
            }
            return Some(p);
        }
        proof {
            assert(t@.children[j as int] == t.children@[j as int]@);
        }
        j = j + 1;
    }
    let r = remove_patch_in_children(t, 0, target);
    proof {
        if r is None {
            assert forall|i: int| 0 <= i < t@.children.len() implies !has_id(
                #[trigger] t@.children[i],
                target as nat,
            ) by {
                assert(t@.children[i].id != target as nat);
                assert(!strictly_below(t@.children[i], target as nat));
            }
        }
    }
    r
}

/// Tries each of `t.children[i..]` as the subtree holding the target's
/// parent.
fn remove_patch_in_children(t: &Instance, i: usize, target: RbxId) -> (r: Option<PatchNode>)
    requires
        i <= t.children@.len(),
    ensures
        r is Some ==> (r->0)@.id == t@.id && crate::rbx_snapshot::patch_has_removal((r->0)@)
            && crate::tree::has_id(t@, target as nat),
        r is None ==> forall|x: int|
            i <= x < t@.children.len() ==> !strictly_below(#[trigger] t@.children[x], target as nat),
    decreases *t, 0int, t.children@.len() - i,
{
    if i == t.children.len() {
        return None;
    }
    proof {
        assert(t@.children[i as int] == t.children@[i as int]@);
    }
    match remove_patch_at(&t.children[i], target) {
        Some(inner) => {
            let ghost inner_view = inner@;
            let mut children: Vec<PatchNode> = Vec::new();
            let mut j: usize = 0;
            while j < i
                invariant
                    j <= i,
                    i < t.children@.len(),
                    children@.len() == j as int,
                decreases i - j,
            {
                children.push(noop_patch(t.children[j].id));
                j = j + 1;
            }
            children.push(inner);
            let p = PatchNode {
                id: t.id,
                update: None,
                children,
                removed: Vec::new(),
                added: Vec::new(),
            };
            proof {
                assert(p@.children[i as int] == inner_view);
                assert(crate::rbx_snapshot::patch_has_removal(p@));
            }
            Some(p)
        },
        None => remove_patch_in_children(t, i + 1, target),
    }
}

/// One Removed event's obligation on a processed batch: if the event's path
/// was bound to an instance strictly below the tree root, that instance's id
/// stands among the dropped ids.
pub open spec fn removal_recorded(
    ev: FsEvent,
    pm: Map<Seq<char>, nat>,
    root: InstData,
    ds: Seq<RbxId>,
) -> bool {
    ev.kind == FsEventKind::Removed && pm.contains_key(ev.path@) && strictly_below(
        root,
        pm[ev.path@],
    ) ==> exists|d: int| 0 <= d < ds.len() && ((#[trigger] ds[d]) as nat) == pm[ev.path@]
}

/// One synchronization session: the live tree, the filesystem cache, the
/// path-to-instance index, and the message queue, driven by watcher events.
pub struct RbxSession<F: ImfsFetcher> {
    pub imfs: Imfs<F>,
    pub tree: RbxTree,
    pub path_map: PathMap,
    pub messages: MessageQueue,
    pub session_id: u64,
}

impl<F: ImfsFetcher> RbxSession<F> {
    /// All components are well formed, the live tree included: no id occurs
    /// twice in it and its fresh-id counter is ahead of every id.
    pub open spec fn wf(&self) -> bool {
        &&& self.imfs.wf()
        &&& self.path_map.wf()
        &&& self.messages.wf()
        &&& self.tree.wf()
    }

    /// A fresh session over the given fetcher: an empty tree whose root is a
    /// `DataModel` instance, nothing cached, nothing bound, no messages.
    pub fn new(fetcher: F, session_id: u64, capacity: usize) -> (r: RbxSession<F>)
        requires
            capacity >= 1,
        ensures
            r.wf(),
            r.messages.next_seq() == 0,
            r.tree.root@.children.len() == 0,
            r.session_id == session_id,
    {
        RbxSession {
            imfs: Imfs::new(fetcher),
            tree: RbxTree::new(String::from_str("DataModel"), String::from_str("DataModel")),
            path_map: PathMap::new(),
            messages: MessageQueue::new(capacity),
            session_id,
        }
    }

    /// Processes one batch of watcher events: refreshes the filesystem
    /// cache, expands each event through the owning middleware variant's
    /// `change_affects_paths`, re-derives snapshots, computes one patch per
    /// affected path, applies them all-or-nothing, rebinds the path map, and
    /// publishes one message carrying the batch's patches.
    ///
    /// On success the outcome names the message, the paths bound to freshly
    /// built instances, and the instance ids unbound by removals; the final
    /// tree is exactly the fold of the published message's patches over the
    /// old tree. On failure nothing observable changed but the filesystem
    /// cache: the live tree, path map and queue are exactly as they were.
    pub fn process_batch(&mut self, events: &Vec<FsEvent>, timestamp: u64) -> (r: Result<
        BatchOutcome,
        SessionError,
    >)
        requires
            old(self).wf(),
        ensures
            final(self).wf(),
            events@.len() == 0 && old(self).messages.next_seq() < u64::MAX as nat ==> r is Ok,
            match r {
                Ok(out) => {
                    &&& out.message as nat == old(self).messages.next_seq()
                    &&& final(self).messages.next_seq() == old(self).messages.next_seq() + 1
                    &&& final(self).messages.msgs().last().number == out.message as nat
                    &&& apply_all_spec(
                        old(self).tree.root@,
                        old(self).tree.next_id as nat,
                        final(self).messages.msgs().last().patches,
                    ) == Some((final(self).tree.root@, final(self).tree.next_id as nat))
                    &&& forall|j: int, k: Seq<char>|
                        #![trigger out.unbound@[j], final(self).path_map@[k]]
                        0 <= j < out.unbound@.len() && final(self).path_map@.contains_key(k)
                            ==> final(self).path_map@[k] != out.unbound@[j] as nat
                    &&& forall|j: int|
                        0 <= j < out.bound@.len() ==> final(self).path_map@.contains_key(
                            (#[trigger] out.bound@[j]).path@,
                        ) && final(self).path_map@[out.bound@[j].path@] == out.bound@[j].id as nat
                            && out.bound@[j].id as nat >= old(self).tree.next_id as nat
                    &&& forall|j: int|
                        0 <= j < events@.len() ==> removal_recorded(
                            #[trigger] events@[j],
                            old(self).path_map@,
                            old(self).tree.root@,
                            out.unbound@,
                        )
                },
                Err(e) => {
                    &&& final(self).tree.root@ == old(self).tree.root@
                    &&& final(self).tree.next_id == old(self).tree.next_id
                    &&& final(self).messages == old(self).messages
                    &&& final(self).path_map == old(self).path_map
                    &&& (e == SessionError::QueueExhausted <==> old(self).messages.next_seq()
                        == u64::MAX as nat)
                },
            },
    {
        let mut patches: Vec<PatchNode> = Vec::new();
        // The ids of the instances removed by this batch.
        let mut dropped: Vec<RbxId> = Vec::new();
        // The paths to bind, each with the index of the patch adding its
        // instance; one entry per path.
        let mut to_bind: Vec<(String, usize)> = Vec::new();
        let mut e: usize = 0;
        while e < events.len()
            invariant
                self.wf(),
                self.tree.root@ == old(self).tree.root@,
                self.tree.next_id == old(self).tree.next_id,
                self.messages == old(self).messages,
                self.path_map == old(self).path_map,
                events@.len() == 0 ==> patches@.len() == 0,
                forall|b: int| 0 <= b < to_bind@.len() ==> (#[trigger] to_bind@[b]).1 < patches@.len(),
                forall|x: int, y: int|
                    0 <= x < y < to_bind@.len() ==> to_bind@[x].0@ != to_bind@[y].0@,
                forall|d: int|
                    0 <= d < dropped@.len() ==> ((#[trigger] dropped@[d]) as nat) < old(
                        self,
                    ).tree.next_id as nat,
                forall|j: int|
                    0 <= j < e as int ==> removal_recorded(
                        #[trigger] events@[j],
                        old(self).path_map@,
                        old(self).tree.root@,
                        dropped@,
                    ),
            decreases events.len() - e,
        {
            // The variant that owns the path decides which paths take part
            // in deriving its instance.
            let event_name = path_file_name(&events[e].path);
            let affected = if check_lua_name(&event_name) {
                ScriptMiddleware::change_affects_paths(&events[e].path)
            } else {
                FolderMiddleware::change_affects_paths(&events[e].path)
            };
            let mut a: usize = 0;
            while a < affected.len()
                invariant
                    self.wf(),
                    self.tree.root@ == old(self).tree.root@,
                    self.tree.next_id == old(self).tree.next_id,
                    self.messages == old(self).messages,
                    self.path_map == old(self).path_map,
                    e < events@.len(),
                    affected@.len() == 1,
                    affected@[0]@ == events@[e as int].path@,
                    forall|b: int|
                        0 <= b < to_bind@.len() ==> (#[trigger] to_bind@[b]).1 < patches@.len(),
                    forall|x: int, y: int|
                        0 <= x < y < to_bind@.len() ==> to_bind@[x].0@ != to_bind@[y].0@,
                    forall|d: int|
                        0 <= d < dropped@.len() ==> ((#[trigger] dropped@[d]) as nat) < old(
                            self,
                        ).tree.next_id as nat,
                    forall|j: int|
                        0 <= j < e as int ==> removal_recorded(
                            #[trigger] events@[j],
                            old(self).path_map@,
                            old(self).tree.root@,
                            dropped@,
                        ),
                    a as int >= 1 ==> removal_recorded(
                        events@[e as int],
                        old(self).path_map@,
                        old(self).tree.root@,
                        dropped@,
                    ),
                decreases affected.len() - a,
            {
                let path = &affected[a];
                match events[e].kind {
                    FsEventKind::Removed => {
                        self.imfs.remove_entry(path);
                        match self.path_map.get(path) {
                            Some(id) => {
                                match remove_patch_at(&self.tree.root, id) {
                                    Some(p) => {
                                        proof {
                                            assert(has_id(self.tree.root@, id as nat));
                                            assert(ids_below(
                                                self.tree.root@,
                                                self.tree.next_id as nat,
                                            ));
                                        }
                                        patches.push(p);
                                        let ghost pre_dropped = dropped@;
                                        dropped.push(id);
                                        proof {
                                            assert(dropped@.last() == id);
                                            assert forall|j: int|
                                                0 <= j < e as int implies removal_recorded(
                                                events@[j],
                                                old(self).path_map@,
                                                old(self).tree.root@,
                                                dropped@,
                                            ) by {
                                                if events@[j].kind == FsEventKind::Removed
                                                    && old(self).path_map@.contains_key(
                                                    events@[j].path@,
                                                ) && strictly_below(
                                                    old(self).tree.root@,
                                                    old(self).path_map@[events@[j].path@],
                                                ) {
                                                    let d = choose|d: int|
                                                        0 <= d < pre_dropped.len() && ((
                                                        pre_dropped[d]) as nat) == old(
                                                            self,
                                                        ).path_map@[events@[j].path@];
                                                    assert(dropped@[d] == pre_dropped[d]);
                                                }
                                            }
                                        }
                                    },
                                    None => {},
                                }
                            },
                            None => {},
                        }
                    },
                    _ => {
                        match self.imfs.refresh(path, REFRESH_DEPTH) {
                            Err(_) => {
                                // Recoverable: skip this path for the batch;
                                // the next watcher event retries it.
                            },
                            Ok(entry) => {
                                let name = path_file_name(path);
                                match snapshot_from_entry(&entry, &name) {
                                    None => {
                                        // Opaque entry: recorded in the
                                        // cache, no effect on the tree.
                                    },
                                    Some(snap) => {
                                        match self.path_map.get(path) {
                                            Some(id) => {
                                                let live = self.tree.get_instance(id);
                                                match live {
                                                    Some(inst) => {
                                                        let p = diff(inst, &snap);
                                                        match wrap_patch_at(
                                                            &self.tree.root,
                                                            id,
                                                            p,
                                                        ) {
                                                            Some(w) => {
                                                                patches.push(w);
                                                            },
                                                            None => {},
                                                        }
                                                    },
                                                    None => {},
                                                }
                                            },
                                            None => {
                                                let parent = path_parent(path);
                                                let queued = has_bind_for(&to_bind, path);
                                                match self.path_map.get(&parent) {
                                                    Some(pid) if !queued => {
                                                        let mut added: Vec<InstanceSnapshot> =
                                                            Vec::new();
                                                        added.push(snap);
                                                        let leaf = PatchNode {
                                                            id: pid,
                                                            update: None,
                                                            children: Vec::new(),
                                                            removed: Vec::new(),
                                                            added,
                                                        };
                                                        match wrap_patch_at(
                                                            &self.tree.root,
                                                            pid,
                                                            leaf,
                                                        ) {
                                                            Some(w) => {
                                                                patches.push(w);
                                                                to_bind.push(
                                                                    (path.clone(), patches.len()
                                                                        - 1),
                                                                );
                                                            },
                                                            None => {},
                                                        }
                                                    },
                                                    _ => {
                                                        // Already queued, or no
                                                        // represented parent.
                                                    },
                                                }
                                            },
                                        }
                                    },
                                }
                            },
                        }
                    },
                }
                a = a + 1;
            }
            e = e + 1;
        }
        let tail = self.messages.next_sequence();
        if tail == u64::MAX {
            return Err(SessionError::QueueExhausted);
        }
        // Apply the batch to a working copy, all-or-nothing.
        let mut work = RbxTree { root: self.tree.root.duplicate(), next_id: self.tree.next_id };
        // The id each patch's first built instance would get.
        let mut fresh_at: Vec<RbxId> = Vec::new();
        let mut i: usize = 0;
        proof {
            assert(patch_views(patches@).subrange(0, 0) =~= Seq::<
                crate::rbx_snapshot::PatchNodeData,
            >::empty());
        }
        while i < patches.len()
            invariant
                old(self).wf(),
                old(self).messages.next_seq() < u64::MAX as nat,
                events@.len() == 0 ==> patches@.len() == 0,
                self.imfs.wf(),
                self.path_map == old(self).path_map,
                self.messages == old(self).messages,
                self.tree.root@ == old(self).tree.root@,
                self.tree.next_id == old(self).tree.next_id,
                work.wf(),
                i <= patches@.len(),
                fresh_at@.len() == i as int,
                work.next_id >= old(self).tree.next_id,
                forall|j: int|
                    0 <= j < fresh_at@.len() ==> (#[trigger] fresh_at@[j]) as nat >= old(
                        self,
                    ).tree.next_id as nat,
                apply_all_spec(
                    old(self).tree.root@,
                    old(self).tree.next_id as nat,
                    patch_views(patches@).subrange(0, i as int),
                ) == Some((work.root@, work.next_id as nat)),
            decreases patches.len() - i,
        {
            fresh_at.push(work.next_id);
            let ghost pre_root = work.root@;
            let ghost pre_next = work.next_id as nat;
            match work.apply_patch(&patches[i]) {
                Ok(()) => {},
                Err(pe) => {
                    return Err(SessionError::PatchFailed(pe));
                },
            }
            proof {
                lemma_apply_node_mono(pre_root, patches@[i as int]@, pre_next);
                lemma_apply_all_snoc(
                    old(self).tree.root@,
                    old(self).tree.next_id as nat,
                    patch_views(patches@).subrange(0, i as int),
                    patch_views(patches@)[i as int],
                );
                assert(patch_views(patches@)[i as int] == patches@[i as int]@);
                assert(patch_views(patches@).subrange(0, i as int + 1) =~= patch_views(
                    patches@,
                ).subrange(0, i as int).push(patch_views(patches@)[i as int]));
            }
            i = i + 1;
        }
        let ghost pvs = patch_views(patches@);
        proof {
            assert(pvs.subrange(0, pvs.len() as int) =~= pvs);
        }
        // Commit, then rebind paths.
        self.tree = work;
        let mut d: usize = 0;
        while d < dropped.len()
            invariant
                old(self).wf(),
                self.imfs.wf(),
                self.messages == old(self).messages,
                self.path_map.wf(),
                self.tree.wf(),
                d <= dropped@.len(),
                apply_all_spec(old(self).tree.root@, old(self).tree.next_id as nat, pvs) == Some(
                    (self.tree.root@, self.tree.next_id as nat),
                ),
                forall|x: int, k: Seq<char>|
                    #![trigger dropped@[x], self.path_map@[k]]
                    0 <= x < d as int && self.path_map@.contains_key(k) ==> self.path_map@[k]
                        != dropped@[x] as nat,
            decreases dropped.len() - d,
        {
            let ghost pre = self.path_map@;
            self.path_map.remove_id(dropped[d]);
            proof {
                assert forall|x: int, k: Seq<char>|
                    0 <= x < d as int + 1 && self.path_map@.contains_key(k) implies self.path_map@[k]
                    != (dropped@[x]) as nat by {
                    assert(pre.contains_key(k) && self.path_map@[k] == pre[k]);
                }
            }
            d = d + 1;
        }
        let mut bound: Vec<PathBinding> = Vec::new();
        let mut b: usize = 0;
        while b < to_bind.len()
            invariant
                old(self).wf(),
                self.imfs.wf(),
                self.messages == old(self).messages,
                self.path_map.wf(),
                self.tree.wf(),
                b <= to_bind@.len(),
                bound@.len() == b as int,
                apply_all_spec(old(self).tree.root@, old(self).tree.next_id as nat, pvs) == Some(
                    (self.tree.root@, self.tree.next_id as nat),
                ),
                forall|x: int|
                    0 <= x < to_bind@.len() ==> (#[trigger] to_bind@[x]).1 < fresh_at@.len(),
                forall|x: int, y: int|
                    0 <= x < y < to_bind@.len() ==> to_bind@[x].0@ != to_bind@[y].0@,
                forall|j: int|
                    0 <= j < fresh_at@.len() ==> (#[trigger] fresh_at@[j]) as nat >= old(
                        self,
                    ).tree.next_id as nat,
                forall|x: int|
                    0 <= x < dropped@.len() ==> ((#[trigger] dropped@[x]) as nat) < old(
                        self,
                    ).tree.next_id as nat,
                forall|x: int, k: Seq<char>|
                    #![trigger dropped@[x], self.path_map@[k]]
                    0 <= x < dropped@.len() && self.path_map@.contains_key(k)
                        ==> self.path_map@[k] != dropped@[x] as nat,
                forall|x: int|
                    0 <= x < b as int ==> (#[trigger] bound@[x]).path@ == to_bind@[x].0@,
                forall|x: int|
                    0 <= x < b as int ==> self.path_map@.contains_key((#[trigger] bound@[x]).path@)
                        && self.path_map@[bound@[x].path@] == bound@[x].id as nat
                        && bound@[x].id as nat >= old(self).tree.next_id as nat,
            decreases to_bind.len() - b,
        {
            let id = fresh_at[to_bind[b].1];
            let ghost pre = self.path_map@;
            self.path_map.insert(to_bind[b].0.clone(), id);
            bound.push(PathBinding { path: to_bind[b].0.clone(), id });
            proof {
                assert forall|x: int|
                    0 <= x < b as int + 1 implies self.path_map@.contains_key(
                    (#[trigger] bound@[x]).path@,
                ) && self.path_map@[bound@[x].path@] == bound@[x].id as nat && bound@[x].id as nat
                    >= old(self).tree.next_id as nat by {
                    if x < b as int {
                        assert(bound@[x].path@ != to_bind@[b as int].0@);
                        assert(pre.contains_key(bound@[x].path@));
                    }
                }
                assert forall|x: int, k: Seq<char>|
                    0 <= x < dropped@.len() && self.path_map@.contains_key(
                        k,
                    ) implies self.path_map@[k] != (dropped@[x]) as nat by {
                    if k == to_bind@[b as int].0@ {
                        assert(self.path_map@[k] == id as nat);
                    } else {
                        assert(pre.contains_key(k) && pre[k] == self.path_map@[k]);
                    }
                }
            }
            b = b + 1;
        }
        let n = self.messages.push(patches, timestamp);
        proof {
            assert(final(self).messages.msgs().last().patches =~= pvs);
        }
        Ok(BatchOutcome { message: n, bound, unbound: dropped })
    }
}

/// What one successfully processed batch did: the sequence number of its
/// published message, the paths newly bound to freshly built instances, and
/// the instance ids whose bindings were dropped.
pub struct BatchOutcome {
    pub message: u64,
    pub bound: Vec<PathBinding>,
    pub unbound: Vec<RbxId>,
}

/// Whether a binding for `path` is already queued.
fn has_bind_for(v: &Vec<(String, usize)>, path: &String) -> (r: bool)
    ensures
        r == exists|j: int| 0 <= j < v@.len() && v@[j].0@ == path@,
{
    let mut i: usize = 0;
    while i < v.len()
        invariant
            i <= v@.len(),
            forall|j: int| 0 <= j < i as int ==> v@[j].0@ != path@,
        decreases v.len() - i,
    {
        if v[i].0 == *path {
            return true;
        }
        i = i + 1;
    }
    false
}

} // verus!