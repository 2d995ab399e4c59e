use rojo::imfs::{EntryKind, FsError, ImfsFetcher};
use rojo::rbx_session::{path_file_name, path_parent, FsEvent, FsEventKind, RbxSession};
use rojo::rbx_snapshot::PatchNode;
use rojo::tree::{PropValue, Property};

struct MockFetcher {
    files: Vec<(String, String)>,
    dirs: Vec<(String, Vec<String>)>,
}

impl MockFetcher {
    fn new() -> MockFetcher {
        MockFetcher { files: Vec::new(), dirs: Vec::new() }
    }

    fn set_file(&mut self, path: &str, contents: &str) {
        self.files.retain(|(p, _)| p != path);
        self.files.push((String::from(path), String::from(contents)));
    }

    fn remove_file(&mut self, path: &str) {
        self.files.retain(|(p, _)| p != path);
    }
}

impl ImfsFetcher for MockFetcher {
    fn entry_kind(&mut self, path: &String) -> Result<EntryKind, FsError> {
        if self.files.iter().any(|(p, _)| p == path) {
            return Ok(EntryKind::File);
        }
        if self.dirs.iter().any(|(p, _)| p == path) {
            return Ok(EntryKind::Directory);
        }
        Err(FsError::NotFound)
    }

    fn read_contents(&mut self, path: &String) -> Result<String, FsError> {
        match self.files.iter().find(|(p, _)| p == path) {
            Some((_, c)) => Ok(c.clone()),
            None => Err(FsError::NotFound),
        }
    }

    fn list_children(&mut self, path: &String) -> Result<Vec<String>, FsError> {
        match self.dirs.iter().find(|(p, _)| p == path) {
            Some((_, names)) => Ok(names.clone()),
            None => Err(FsError::NotFound),
        }
    }
}

fn created(path: &str) -> FsEvent {
    FsEvent { path: String::from(path), kind: FsEventKind::Created }
}

fn modified(path: &str) -> FsEvent {
    FsEvent { path: String::from(path), kind: FsEventKind::Modified }
}

fn removed(path: &str) -> FsEvent {
    FsEvent { path: String::from(path), kind: FsEventKind::Removed }
}

/// The update nodes reachable in a patch, leaf-first.
fn updates_in(p: &PatchNode) -> Vec<(String, Vec<(String, String)>)> {
    let mut out = Vec::new();
    for c in &p.children {
        out.extend(updates_in(c));
    }
    if let Some(u) = &p.update {
        let props = u
            .properties
            .iter()
            .map(|q: &Property| {
                let v = match &q.value {
                    PropValue::Str(s) => s.clone(),
                    PropValue::Bool(b) => format!("{}", b),
                    PropValue::Int(i) => format!("{}", i),
                };
                (q.name.clone(), v)
            })
            .collect();
        out.push((u.class_name.clone(), props));
    }
    out
}

fn removals_in(p: &PatchNode) -> Vec<u64> {
    let mut out: Vec<u64> = p.removed.clone();
    for c in &p.children {
        out.extend(removals_in(c));
    }
    out
}

/// A session watching an empty `/Scripts` directory, with the filesystem
/// root bound to the tree root.
fn scripts_session() -> RbxSession<MockFetcher> {
    let mut fetcher = MockFetcher::new();
    fetcher.dirs.push((String::new(), vec![String::from("Scripts")]));
    fetcher.dirs.push((String::from("/Scripts"), Vec::new()));
    let mut session = RbxSession::new(fetcher, 1, 64);
    session.path_map.insert(String::new(), 0);
    session
        .process_batch(&vec![created("/Scripts")], 0)
        .expect("the folder batch applies");
    session
}

#[test]
fn new_file_becomes_script_under_folder() {
    let mut session = scripts_session();
    session.imfs.fetcher.set_file("/Scripts/Main.lua", "print(\"hi\")");
    let outcome = session
        .process_batch(&vec![created("/Scripts/Main.lua")], 1)
        .expect("the script batch applies");
    assert_eq!(outcome.bound.len(), 1);
    assert_eq!(outcome.bound[0].path, "/Scripts/Main.lua");
    assert!(outcome.unbound.is_empty());
    let folder = &session.tree.root.children[0];
    assert_eq!(folder.class_name, "Folder");
    assert_eq!(folder.name, "Scripts");
    let script = &folder.children[0];
    assert_eq!(script.class_name, "Script");
    assert_eq!(script.name, "Main");
    assert_eq!(script.children.len(), 0);
    assert_eq!(script.properties.len(), 1);
    assert_eq!(script.properties[0].name, "Source");
    assert_eq!(
        script.properties[0].value,
        PropValue::Str(String::from("print(\"hi\")"))
    );
    // The new path is bound to the script instance.
    let id = session
        .path_map
        .get(&String::from("/Scripts/Main.lua"))
        .expect("the path is bound");
    assert_eq!(session.tree.get_instance(id).unwrap().name, "Main");
}

#[test]
fn modifying_a_file_yields_one_update_and_the_next_sequence_number() {
    let mut session = scripts_session();
    session.imfs.fetcher.set_file("/Scripts/Main.lua", "print(\"hi\")");
    let before = session
        .process_batch(&vec![created("/Scripts/Main.lua")], 1)
        .unwrap()
        .message;
    session.imfs.fetcher.set_file("/Scripts/Main.lua", "print(\"bye\")");
    let n = session
        .process_batch(&vec![modified("/Scripts/Main.lua")], 2)
        .unwrap()
        .message;
    assert_eq!(n, before + 1);
    let cursor = n;
    let (msgs, _) = session.messages.poll(cursor).expect("live cursor");
    assert_eq!(msgs.len(), 1);
    assert_eq!(msgs[0].number, n);
    assert_eq!(msgs[0].patches.len(), 1);
    let ups = updates_in(&msgs[0].patches[0]);
    assert_eq!(ups.len(), 1);
    assert_eq!(ups[0].0, "Script");
    assert_eq!(
        ups[0].1,
        vec![(String::from("Source"), String::from("print(\"bye\")"))]
    );
    let script = &session.tree.root.children[0].children[0];
    assert_eq!(
        script.properties[0].value,
        PropValue::Str(String::from("print(\"bye\")"))
    );
}

#[test]
fn deleting_a_file_removes_instance_and_binding() {
    let mut session = scripts_session();
    session.imfs.fetcher.set_file("/Scripts/Main.lua", "print(\"hi\")");
    session
        .process_batch(&vec![created("/Scripts/Main.lua")], 1)
        .unwrap();
    let id = session
        .path_map
        .get(&String::from("/Scripts/Main.lua"))
        .expect("bound after creation");
    session.imfs.fetcher.remove_file("/Scripts/Main.lua");
    let outcome = session
        .process_batch(&vec![removed("/Scripts/Main.lua")], 2)
        .unwrap();
    let n = outcome.message;
    assert_eq!(outcome.unbound, vec![id]);
    assert!(outcome.bound.is_empty());
    // One message whose single patch removes exactly the script's instance.
    let (msgs, _) = session.messages.poll(n).expect("live cursor");
    assert_eq!(msgs.len(), 1);
    assert_eq!(msgs[0].patches.len(), 1);
    assert_eq!(removals_in(&msgs[0].patches[0]), vec![id]);
    // The instance is gone from the tree and the path map.
    assert!(session.tree.get_instance(id).is_none());
    assert_eq!(session.path_map.get(&String::from("/Scripts/Main.lua")), None);
    assert_eq!(session.tree.root.children[0].children.len(), 0);
}

#[test]
fn rapid_edits_yield_two_ordered_messages() {
    let mut session = scripts_session();
    session.imfs.fetcher.set_file("/Scripts/Main.lua", "a = 1");
    session
        .process_batch(&vec![created("/Scripts/Main.lua")], 1)
        .unwrap();
    let cursor = session.messages.subscribe();
    session.imfs.fetcher.set_file("/Scripts/Main.lua", "a = 2");
    session
        .process_batch(&vec![modified("/Scripts/Main.lua")], 2)
        .unwrap();
    session.imfs.fetcher.set_file("/Scripts/Main.lua", "a = 3");
    session
        .process_batch(&vec![modified("/Scripts/Main.lua")], 3)
        .unwrap();
    // The subscriber polls late and still sees two messages, not one merged.
    let (msgs, _) = session.messages.poll(cursor).expect("live cursor");
    assert_eq!(msgs.len(), 2);
    assert_eq!(msgs[1].number, msgs[0].number + 1);
    let first = updates_in(&msgs[0].patches[0]);
    let second = updates_in(&msgs[1].patches[0]);
    assert_eq!(first[0].1[0].1, "a = 2");
    assert_eq!(second[0].1[0].1, "a = 3");
}

#[test]
fn unrecognized_paths_are_opaque() {
    let mut session = scripts_session();
    session.imfs.fetcher.set_file("/Scripts/notes.txt", "plain text");
    let tail = session.messages.next_sequence();
    session
        .process_batch(&vec![created("/Scripts/notes.txt")], 1)
        .expect("the batch still completes");
    // One message per batch, but no patch and no binding for the opaque file.
    let (msgs, _) = session.messages.poll(tail).expect("live cursor");
    assert_eq!(msgs.len(), 1);
    assert!(msgs[0].patches.is_empty());
    assert_eq!(session.path_map.get(&String::from("/Scripts/notes.txt")), None);
    assert_eq!(session.tree.root.children[0].children.len(), 0);
}

#[test]
fn empty_batch_still_publishes_one_message() {
    let mut session = scripts_session();
    let tail = session.messages.next_sequence();
    let n = session.process_batch(&Vec::new(), 9).unwrap().message;
    assert_eq!(n, tail);
    let (msgs, _) = session.messages.poll(tail).unwrap();
    assert_eq!(msgs.len(), 1);
    assert!(msgs[0].patches.is_empty());
    assert_eq!(msgs[0].timestamp, 9);
}

#[test]
fn path_helpers_split_on_the_last_slash() {
    assert_eq!(path_file_name(&String::from("/Scripts/Main.lua")), "Main.lua");
    assert_eq!(path_parent(&String::from("/Scripts/Main.lua")), "/Scripts");
    assert_eq!(path_file_name(&String::from("Main.lua")), "Main.lua");
    assert_eq!(path_parent(&String::from("Main.lua")), "");
    assert_eq!(path_parent(&String::from("/Scripts")), "");
}

#[test]
fn duplicate_created_events_bind_once() {
    let mut session = scripts_session();
    session.imfs.fetcher.set_file("/Scripts/Main.lua", "x = 1");
    let out = session
        .process_batch(
            &vec![created("/Scripts/Main.lua"), created("/Scripts/Main.lua")],
            1,
        )
        .unwrap();
    // One binding and one instance, not two.
    assert_eq!(out.bound.len(), 1);
    assert_eq!(out.bound[0].path, "/Scripts/Main.lua");
    assert_eq!(session.tree.root.children[0].children.len(), 1);
}
