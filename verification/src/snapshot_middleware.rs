//! Snapshot middleware: converters between filesystem shapes and instance
//! shapes, tried in a fixed priority order.
//!
//! Each variant answers `None` for a shape it does not own — that is a
//! normal "try the next variant" signal, not an error. The variants are
//! mutually exclusive by construction (`lemma_middleware_exclusive`): a
//! `.lua` file belongs to `ScriptMiddleware`, a directory to
//! `FolderMiddleware`, and every other shape is opaque to the tree.
//! `snapshot_from_entry` is the dispatcher: it tries the variants in order
//! and computes exactly `convert_entry`.

use vstd::prelude::*;
use vstd::string::StrSliceExecFns;
use vstd::string::StringExecFns;
use crate::imfs::{ImfsSnapshot, ImfsData, ChildData, imfs_view};
use crate::tree::InstData;
use crate::tree::{InstanceSnapshot, Property, PropValue, PropData, ValueData, SnapData, RbxId};
use crate::rbx_snapshot::RbxTree;

verus! {

/// The `.lua` file name suffix.
pub open spec fn lua_suffix() -> Seq<char> {
    seq!['.', 'l', 'u', 'a']
}

/// Whether `n` is a script file name: a nonempty stem followed by `.lua`.
pub open spec fn is_lua_name(n: Seq<char>) -> bool {
    n.len() > 4 && n.subrange(n.len() - 4, n.len() as int) == lua_suffix()
}

/// The script name: the file name without its `.lua` suffix.
pub open spec fn lua_stem(n: Seq<char>) -> Seq<char> {
    n.subrange(0, n.len() - 4)
}

/// The instance a script file maps to: a `Script` whose `Source` property
/// holds the file contents.
pub open spec fn script_snap(stem: Seq<char>, contents: Seq<char>) -> SnapData {
    SnapData {
        class_name: "Script"@,
        name: stem,
        properties: seq![PropData { name: "Source"@, value: ValueData::Str(contents) }],
        children: Seq::empty(),
    }
}

/// Whether the script middleware owns this entry shape.
pub open spec fn script_accepts(name: Seq<char>, e: ImfsData) -> bool {
    e is File && is_lua_name(name)
}

/// Whether the folder middleware owns this entry shape.
pub open spec fn folder_accepts(e: ImfsData) -> bool {
    e is Directory
}

/// At most one middleware variant owns any entry shape: the variants are
/// mutually exclusive, so the dispatch order cannot change what an entry
/// becomes.
pub proof fn lemma_middleware_exclusive(name: Seq<char>, e: ImfsData)
    ensures
        !(script_accepts(name, e) && folder_accepts(e)),
{
}

/// What the middleware set derives from one filesystem entry: a script for
/// a `.lua` file, a folder holding the converted children for a directory,
/// nothing for any other shape. An unrecognized child is skipped, not an
/// error.
pub open spec fn convert_entry(name: Seq<char>, e: ImfsData) -> Option<SnapData>
    decreases e, 1int, 0int,
{
    match e {
        ImfsData::File { contents } => if is_lua_name(name) {
            Some(script_snap(lua_stem(name), contents))
        } else {
            None
        },
        ImfsData::Directory { children } => Some(
            SnapData {
                class_name: "Folder"@,
                name: name,
                properties: Seq::empty(),
                children: convert_children(children, 0),
            },
        ),
    }
}

/// The conversions of the recognized children `cs[i..]`, in order.
pub open spec fn convert_children(cs: Seq<ChildData>, i: int) -> Seq<SnapData>
    decreases cs, 0int, cs.len() - i,
{
    if !(0 <= i < cs.len()) {
        Seq::empty()
    } else {
        let rest = convert_children(cs, i + 1);
        match convert_entry(cs[i].name, cs[i].entry) {
            Some(s) => seq![s] + rest,
            None => rest,
        }
    }
}

/// Whether `name` ends in `.lua` with a nonempty stem.
pub fn check_lua_name(name: &String) -> (r: bool)
    ensures
        r == is_lua_name(name@),
{
    let n = name.as_str().unicode_len();
    if n <= 4 {
        return false;
    }
    let c1 = name.as_str().get_char(n - 4);
    let c2 = name.as_str().get_char(n - 3);
    let c3 = name.as_str().get_char(n - 2);
    let c4 = name.as_str().get_char(n - 1);
    let r = c1 == '.' && c2 == 'l' && c3 == 'u' && c4 == 'a';
    proof {
        if r {
            assert(name@.subrange(name@.len() - 4, name@.len() as int) =~= lua_suffix());
        } else {
            if name@.subrange(name@.len() - 4, name@.len() as int) == lua_suffix() {
                assert(name@.subrange(name@.len() - 4, name@.len() as int)[0] == '.');
                assert(name@.subrange(name@.len() - 4, name@.len() as int)[1] == 'l');
                assert(name@.subrange(name@.len() - 4, name@.len() as int)[2] == 'u');
                assert(name@.subrange(name@.len() - 4, name@.len() as int)[3] == 'a');
            }
        }
    }
    r
}

/// A middleware variant: one two-way conversion between a filesystem shape
/// and an instance shape, plus the set of paths whose content takes part in
/// deriving one instance. The two spec methods say exactly what each
/// variant's conversions return, so callers that dispatch through the trait
/// learn the full behavior of the variant they picked.
pub trait SnapshotMiddleware {
    /// The instance shape this variant derives from a filesystem entry, or
    /// `None` when the shape is not this variant's.
    spec fn converts(name: Seq<char>, e: ImfsData) -> Option<SnapData>;

    /// The file name and filesystem shape this variant materializes the
    /// live instance with id `id` back to, or `None` when the instance is
    /// not this variant's.
    spec fn materializes(root: InstData, id: nat) -> Option<(Seq<char>, ImfsData)>;

    /// The instance this variant derives from the entry, or `None` when the
    /// shape is not this variant's.
    fn from_imfs(entry: &ImfsSnapshot, name: &String) -> (r: Option<InstanceSnapshot>)
        ensures
            match r {
                Some(s) => Self::converts(name@, entry@) == Some(s@),
                None => Self::converts(name@, entry@) is None,
            },
    ;

    /// The file name and filesystem shape this variant materializes the
    /// instance back to, or `None` when the instance is not this variant's.
    fn from_instance(tree: &RbxTree, id: RbxId) -> (r: Option<(String, ImfsSnapshot)>)
        ensures
            match r {
                Some(pr) => Self::materializes(tree.root@, id as nat) == Some((pr.0@, pr.1@)),
                None => Self::materializes(tree.root@, id as nat) is None,
            },
    ;

    /// Every path whose content takes part in deriving the instance at
    /// `path`: a change to any of them re-derives the whole instance, never
    /// a part of it. Both shapes here derive from one path, so the result
    /// is exactly that path.
    fn change_affects_paths(path: &String) -> (r: Vec<String>)
        ensures
            r@.len() == 1,
            r@[0]@ == path@,
    ;
}

/// The middleware owning single `.lua` script files.
pub struct ScriptMiddleware;

/// The middleware owning plain directories.
pub struct FolderMiddleware;

/// The script conversion: `Main.lua` holding source text becomes a `Script`
/// instance named `Main` whose `Source` property holds the text.
pub fn script_convert(entry: &ImfsSnapshot, name: &String) -> (r: Option<InstanceSnapshot>)
    ensures
        r is Some <==> script_accepts(name@, entry@),
        match r {
            Some(s) => Some(s@) == convert_entry(name@, entry@),
            None => true,
        },
{
    match entry {
        ImfsSnapshot::File { contents } => {
            if check_lua_name(name) {
                let n = name.as_str().unicode_len();
                let stem = String::from_str(name.as_str().substring_char(0, n - 4));
                let mut properties: Vec<Property> = Vec::new();
                properties.push(
                    Property {
                        name: String::from_str("Source"),
                        value: PropValue::Str(contents.clone()),
                    },
                );
                let s = InstanceSnapshot {
                    class_name: String::from_str("Script"),
                    name: stem,
                    properties,
                    children: Vec::new(),
                };
                proof {
                    assert(s@.properties =~= script_snap(lua_stem(name@), contents@).properties);
                    assert(s@.children =~= script_snap(lua_stem(name@), contents@).children);
                    assert(s@ =~= script_snap(lua_stem(name@), contents@));
                }
                Some(s)
            } else {
                None
            }
        },
        ImfsSnapshot::Directory { .. } => None,
    }
}

/// The folder conversion: a directory becomes a `Folder` instance holding
/// the conversions of its recognized children, in order.
pub fn folder_convert(entry: &ImfsSnapshot, name: &String) -> (r: Option<InstanceSnapshot>)
    ensures
        r is Some <==> folder_accepts(entry@),
        match r {
            Some(s) => Some(s@) == convert_entry(name@, entry@),
            None => true,
        },
    decreases *entry, 1int,
{
    match entry {
        ImfsSnapshot::File { .. } => None,
        ImfsSnapshot::Directory { children } => {
            let mut out: Vec<InstanceSnapshot> = Vec::new();
            let mut i: usize = children.len();
            proof {
                assert(entry@->Directory_children.len() == children@.len());
            }
            while i > 0
                invariant
                    i <= children.len(),
                    entry@ == imfs_view(*entry),
                    *entry == (ImfsSnapshot::Directory { children: *children }),
                    Seq::new(
                        out@.len(),
                        |k: int|
                            if 0 <= k < out@.len() {
                                out@[k]@
                            } else {
                                vstd::pervasive::arbitrary()
                            },
                    ) =~= convert_children(entry@->Directory_children, i as int),
                decreases i,
            {
                i = i - 1;
                proof {
                    assert(decreases_to!(*entry => children[i as int].entry));
                    assert(entry@->Directory_children[i as int].entry == imfs_view(children[i as int].entry));
                    assert(entry@->Directory_children[i as int].name == children[i as int].name@);
                }
                match snapshot_from_entry(&children[i].entry, &children[i].name) {
                    Some(s) => {
                        out.insert(0, s);
                    },
                    None => {},
                }
                proof {
                    assert(Seq::new(
                        out@.len(),
                        |k: int|
                            if 0 <= k < out@.len() {
                                out@[k]@
                            } else {
                                vstd::pervasive::arbitrary()
                            },
                    ) =~= convert_children(entry@->Directory_children, i as int));
                }
            }
            let s = InstanceSnapshot {
                class_name: String::from_str("Folder"),
                name: name.clone(),
                properties: Vec::new(),
                children: out,
            };
            proof {
                let cv = convert_entry(name@, entry@)->0;
                assert(s@.children =~= cv.children);
                assert(s@.properties =~= cv.properties);
                assert(s@ =~= cv);
            }
            Some(s)
        },
    }
}

/// Tries the middleware variants in priority order — scripts, then folders —
/// and returns the first conversion, or `None` for an opaque entry. Computes
/// exactly `convert_entry`.
pub fn snapshot_from_entry(entry: &ImfsSnapshot, name: &String) -> (r: Option<InstanceSnapshot>)
    ensures
        match r {
            Some(s) => convert_entry(name@, entry@) == Some(s@),
            None => convert_entry(name@, entry@) is None,
        },
    decreases *entry, 2int,
{
    match script_convert(entry, name) {
        Some(s) => Some(s),
        None => {
            match folder_convert(entry, name) {
                Some(s) => Some(s),
                None => None,
            }
        },
    }
}

impl SnapshotMiddleware for ScriptMiddleware {
    open spec fn converts(name: Seq<char>, e: ImfsData) -> Option<SnapData> {
        if script_accepts(name, e) {
            convert_entry(name, e)
        } else {
            None
        }
    }

    open spec fn materializes(root: InstData, id: nat) -> Option<(Seq<char>, ImfsData)> {
        match crate::rbx_snapshot::find_spec(root, id) {
            Some(inst) => if inst.class_name == "Script"@ {
                Some(
                    (
                        inst.name + ".lua"@,
                        ImfsData::File { contents: source_of(inst.properties) },
                    ),
                )
            } else {
                None
            },
            None => None,
        }
    }

    fn from_imfs(entry: &ImfsSnapshot, name: &String) -> (r: Option<InstanceSnapshot>) {
        script_convert(entry, name)
    }

    fn from_instance(tree: &RbxTree, id: RbxId) -> (r: Option<(String, ImfsSnapshot)>) {
        script_materialize(tree, id)
    }

    fn change_affects_paths(path: &String) -> (r: Vec<String>) {
        let mut v: Vec<String> = Vec::new();
        v.push(path.clone());
        v
    }
}

impl SnapshotMiddleware for FolderMiddleware {
    open spec fn converts(name: Seq<char>, e: ImfsData) -> Option<SnapData> {
        if folder_accepts(e) {
            convert_entry(name, e)
        } else {
            None
        }
    }

    open spec fn materializes(root: InstData, id: nat) -> Option<(Seq<char>, ImfsData)> {
        match crate::rbx_snapshot::find_spec(root, id) {
            Some(inst) => if inst.class_name == "Folder"@ {
                Some((inst.name, ImfsData::Directory { children: Seq::empty() }))
            } else {
                None
            },
            None => None,
        }
    }

    fn from_imfs(entry: &ImfsSnapshot, name: &String) -> (r: Option<InstanceSnapshot>) {
        folder_convert(entry, name)
    }

    fn from_instance(tree: &RbxTree, id: RbxId) -> (r: Option<(String, ImfsSnapshot)>) {
        folder_materialize(tree, id)
    }

    fn change_affects_paths(path: &String) -> (r: Vec<String>) {
        let mut v: Vec<String> = Vec::new();
        v.push(path.clone());
        v
    }
}

/// The text of the last `Source` property holding a string, or empty.
pub open spec fn source_of(props: Seq<PropData>) -> Seq<char>
    decreases props.len(),
{
    if props.len() == 0 {
        Seq::empty()
    } else if props.last().name == "Source"@ && props.last().value is Str {
        props.last().value->Str_0
    } else {
        source_of(props.drop_last())
    }
}

/// Materializes a `Script` instance back to its file shape: the name with
/// `.lua` appended, and a file holding the `Source` property's text.
pub fn script_materialize(tree: &RbxTree, id: RbxId) -> (r: Option<(String, ImfsSnapshot)>)
    ensures
        match r {
            Some(pr) => {
                &&& crate::rbx_snapshot::find_spec(tree.root@, id as nat) is Some
                &&& {
                    let inst = crate::rbx_snapshot::find_spec(tree.root@, id as nat)->0;
                    &&& inst.class_name == "Script"@
                    &&& pr.0@ == inst.name + ".lua"@
                    &&& pr.1@ == (ImfsData::File { contents: source_of(inst.properties) })
                }
            },
            None => crate::rbx_snapshot::find_spec(tree.root@, id as nat) is None
                || (crate::rbx_snapshot::find_spec(tree.root@, id as nat)->0).class_name
                != "Script"@,
        },
{
    let inst = match tree.get_instance(id) {
        Some(t) => t,
        None => {
            return None;
        },
    };
    if !(inst.class_name == String::from_str("Script")) {
        return None;
    }
    let mut source = String::new();
    let mut i: usize = 0;
    while i < inst.properties.len()
        invariant
            i <= inst.properties@.len(),
            source@ == source_of(inst@.properties.subrange(0, i as int)),
        decreases inst.properties.len() - i,
    {
        proof {
            assert(inst@.properties.subrange(0, i as int + 1).drop_last() =~= inst@.properties.subrange(
                0,
                i as int,
            ));
            assert(inst@.properties.subrange(0, i as int + 1).last() == inst.properties@[i as int]@);
        }
        if inst.properties[i].name == String::from_str("Source") {
            match &inst.properties[i].value {
                PropValue::Str(s) => {
                    source = s.clone();
                },
                _ => {},
            }
        }
        i = i + 1;
    }
    proof {
        assert(inst@.properties.subrange(0, inst@.properties.len() as int) =~= inst@.properties);
    }
    let file_name = inst.name.clone().concat(".lua");
    Some((file_name, ImfsSnapshot::File { contents: source }))
}

/// Materializes a `Folder` instance back to its directory shape. The
/// directory itself is materialized; children are materialized per path by
/// the session.
pub fn folder_materialize(tree: &RbxTree, id: RbxId) -> (r: Option<(String, ImfsSnapshot)>)
    ensures
        match r {
            Some(pr) => {
                &&& crate::rbx_snapshot::find_spec(tree.root@, id as nat) is Some
                &&& {
                    let inst = crate::rbx_snapshot::find_spec(tree.root@, id as nat)->0;
                    &&& inst.class_name == "Folder"@
                    &&& pr.0@ == inst.name
                    &&& pr.1@ == (ImfsData::Directory { children: Seq::empty() })
                }
            },
            None => crate::rbx_snapshot::find_spec(tree.root@, id as nat) is None
                || (crate::rbx_snapshot::find_spec(tree.root@, id as nat)->0).class_name
                != "Folder"@,
        },
{
    let inst = match tree.get_instance(id) {
        Some(t) => t,
        None => {
            return None;
        },
    };
    if !(inst.class_name == String::from_str("Folder")) {
        return None;
    }
    let r = (inst.name.clone(), ImfsSnapshot::Directory { children: Vec::new() });
    proof {
        assert(r.1@->Directory_children =~= Seq::<ChildData>::empty());
        assert(r.1@ =~= (ImfsData::Directory { children: Seq::empty() }));
    }
    Some(r)
}

} // verus!