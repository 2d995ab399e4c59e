use rojo::rbx_snapshot::{diff, PatchError, PatchNode, PatchOp, RbxTree};
use rojo::tree::{Instance, InstanceSnapshot, PropValue, Property};

fn prop(name: &str, value: &str) -> Property {
    Property {
        name: String::from(name),
        value: PropValue::Str(String::from(value)),
    }
}

fn leaf_instance(id: u64, class_name: &str, name: &str, props: Vec<Property>) -> Instance {
    Instance {
        id,
        class_name: String::from(class_name),
        name: String::from(name),
        properties: props,
        children: Vec::new(),
    }
}

fn leaf_snapshot(class_name: &str, name: &str, props: Vec<Property>) -> InstanceSnapshot {
    InstanceSnapshot {
        class_name: String::from(class_name),
        name: String::from(name),
        properties: props,
        children: Vec::new(),
    }
}

fn snapshot_of(inst: &Instance) -> InstanceSnapshot {
    InstanceSnapshot {
        class_name: inst.class_name.clone(),
        name: inst.name.clone(),
        properties: inst
            .properties
            .iter()
            .map(|p| Property {
                name: p.name.clone(),
                value: match &p.value {
                    PropValue::Str(s) => PropValue::Str(s.clone()),
                    PropValue::Bool(b) => PropValue::Bool(*b),
                    PropValue::Int(i) => PropValue::Int(*i),
                },
            })
            .collect(),
        children: inst.children.iter().map(snapshot_of).collect(),
    }
}

fn instance_matches_snapshot(inst: &Instance, snap: &InstanceSnapshot) -> bool {
    inst.class_name == snap.class_name
        && inst.name == snap.name
        && inst.properties == snap.properties
        && inst.children.len() == snap.children.len()
        && inst
            .children
            .iter()
            .zip(snap.children.iter())
            .all(|(c, s)| instance_matches_snapshot(c, s))
}

fn patch_is_noop(p: &PatchNode) -> bool {
    p.update.is_none()
        && p.removed.is_empty()
        && p.added.is_empty()
        && p.children.iter().all(patch_is_noop)
}

fn sample_tree() -> RbxTree {
    let script = leaf_instance(1, "Script", "Main", vec![prop("Source", "print(\"hi\")")]);
    let folder = Instance {
        id: 2,
        class_name: String::from("Folder"),
        name: String::from("Scripts"),
        properties: Vec::new(),
        children: vec![script],
    };
    let root = Instance {
        id: 0,
        class_name: String::from("DataModel"),
        name: String::from("DataModel"),
        properties: Vec::new(),
        children: vec![folder],
    };
    RbxTree { root, next_id: 3 }
}

#[test]
fn diff_of_equal_trees_is_empty() {
    let tree = sample_tree();
    let snap = snapshot_of(&tree.root);
    let patch = diff(&tree.root, &snap);
    assert!(patch_is_noop(&patch));
}

#[test]
fn diff_then_apply_reaches_target() {
    let mut tree = sample_tree();
    let mut target = snapshot_of(&tree.root);
    // Change the script's source, drop the folder, add a new value holder.
    target.children[0].children[0].properties = vec![prop("Source", "print(\"bye\")")];
    target
        .children
        .push(leaf_snapshot("StringValue", "Greeting", vec![prop("Value", "hello")]));
    let patch = diff(&tree.root, &target);
    tree.apply_patch(&patch).expect("the patch fits the tree it came from");
    assert!(instance_matches_snapshot(&tree.root, &target));
}

#[test]
fn diff_is_a_pure_function_of_structure() {
    // Two structurally equal trees with different ids diff identically in shape.
    let tree = sample_tree();
    let mut target = snapshot_of(&tree.root);
    target.children[0].children[0].properties = vec![prop("Source", "x = 1")];
    let p1 = diff(&tree.root, &target);
    let p2 = diff(&tree.root, &target);
    // Apply each to a fresh copy of the tree: both land on the target.
    let mut t1 = sample_tree();
    t1.apply_patch(&p1).unwrap();
    let mut t2 = sample_tree();
    t2.apply_patch(&p2).unwrap();
    assert!(instance_matches_snapshot(&t1.root, &target));
    assert!(instance_matches_snapshot(&t2.root, &target));
}

#[test]
fn reapplying_a_removing_patch_is_stale() {
    let mut tree = sample_tree();
    let mut target = snapshot_of(&tree.root);
    // Remove the script: the folder loses its only child.
    target.children[0].children.clear();
    let patch = diff(&tree.root, &target);
    tree.apply_patch(&patch).expect("first application fits");
    let second = tree.apply_patch(&patch);
    assert_eq!(second, Err(PatchError::StaleTarget));
}

#[test]
fn update_patch_carries_exact_fields() {
    let tree = sample_tree();
    let mut target = snapshot_of(&tree.root);
    target.children[0].children[0].properties = vec![prop("Source", "print(\"edited\")")];
    let patch = diff(&tree.root, &target);
    // Root and folder levels are untouched; the script level carries the update.
    assert!(patch.update.is_none());
    assert!(patch.removed.is_empty() && patch.added.is_empty());
    let folder_patch = &patch.children[0];
    assert!(folder_patch.update.is_none());
    let script_patch = &folder_patch.children[0];
    let update = script_patch.update.as_ref().expect("the script changed");
    assert_eq!(update.class_name, "Script");
    assert_eq!(update.name, "Main");
    assert_eq!(update.properties, vec![prop("Source", "print(\"edited\")")]);
}

#[test]
fn added_children_get_fresh_ids() {
    let mut tree = sample_tree();
    let mut target = snapshot_of(&tree.root);
    target
        .children
        .push(leaf_snapshot("Folder", "Assets", Vec::new()));
    let patch = diff(&tree.root, &target);
    let before = tree.next_id;
    tree.apply_patch(&patch).unwrap();
    let added = &tree.root.children[1];
    assert_eq!(added.name, "Assets");
    assert_eq!(added.id, before);
    assert_eq!(tree.next_id, before + 1);
}

#[test]
fn get_instance_finds_nested_nodes() {
    let tree = sample_tree();
    let script = tree.get_instance(1).expect("the script exists");
    assert_eq!(script.name, "Main");
    assert!(tree.get_instance(99).is_none());
}

#[test]
fn ops_come_out_in_execution_order() {
    let tree = sample_tree();
    let mut target = snapshot_of(&tree.root);
    // Remove the script, rename the folder, add a sibling folder.
    target.children[0].children.clear();
    target.children[0].name = String::from("Sources");
    target
        .children
        .push(leaf_snapshot("Folder", "Assets", Vec::new()));
    let patch = diff(&tree.root, &target);
    let ops = patch.to_ops();
    assert_eq!(ops.len(), 3);
    match &ops[0] {
        PatchOp::Remove { id } => assert_eq!(*id, 1),
        other => panic!("a removal comes first, not {:?}", other),
    }
    match &ops[1] {
        PatchOp::Update { id, fields } => {
            assert_eq!(*id, 2);
            assert_eq!(fields.name, "Sources");
        }
        other => panic!("an update comes second, not {:?}", other),
    }
    match &ops[2] {
        PatchOp::Add { parent, snapshot } => {
            assert_eq!(*parent, 0);
            assert_eq!(snapshot.name, "Assets");
        }
        other => panic!("an addition comes last, not {:?}", other),
    }
}
