use rojo::imfs::{EntryKind, FsError, Imfs, ImfsFetcher, ImfsSnapshot};
use rojo::message_queue::{MessageQueue, PollError};
use rojo::path_map::PathMap;
use rojo::snapshot_middleware::{folder_convert, script_convert, snapshot_from_entry};
use rojo::tree::PropValue;

struct MockFetcher {
    files: Vec<(String, String)>,
    dirs: Vec<(String, Vec<String>)>,
    denied: Vec<String>,
}

impl MockFetcher {
    fn new() -> MockFetcher {
        MockFetcher { files: Vec::new(), dirs: Vec::new(), denied: Vec::new() }
    }
}

impl ImfsFetcher for MockFetcher {
    fn entry_kind(&mut self, path: &String) -> Result<EntryKind, FsError> {
        if self.denied.iter().any(|p| p == path) {
            return Err(FsError::PermissionDenied);
        }
        if self.files.iter().any(|(p, _)| p == path) {
            return Ok(EntryKind::File);
        }
        if self.dirs.iter().any(|(p, _)| p == path) {
            return Ok(EntryKind::Directory);
        }
        Err(FsError::NotFound)
    }

    fn read_contents(&mut self, path: &String) -> Result<String, FsError> {
        match self.files.iter().find(|(p, _)| p == path) {
            Some((_, c)) => Ok(c.clone()),
            None => Err(FsError::NotFound),
        }
    }

    fn list_children(&mut self, path: &String) -> Result<Vec<String>, FsError> {
        match self.dirs.iter().find(|(p, _)| p == path) {
            Some((_, names)) => Ok(names.clone()),
            None => Err(FsError::NotFound),
        }
    }
}

#[test]
fn path_map_rebinding_drops_old_binding() {
    let mut pm = PathMap::new();
    pm.insert(String::from("/a.lua"), 7);
    assert_eq!(pm.get(&String::from("/a.lua")), Some(7));
    pm.insert(String::from("/a.lua"), 9);
    assert_eq!(pm.get(&String::from("/a.lua")), Some(9));
}

#[test]
fn path_map_remove_id_drops_every_binding() {
    let mut pm = PathMap::new();
    pm.insert(String::from("/scripts"), 5);
    pm.insert(String::from("/scripts/init.lua"), 5);
    pm.insert(String::from("/other.lua"), 6);
    pm.remove_id(5);
    assert_eq!(pm.get(&String::from("/scripts")), None);
    assert_eq!(pm.get(&String::from("/scripts/init.lua")), None);
    assert_eq!(pm.get(&String::from("/other.lua")), Some(6));
    assert_eq!(pm.get_path(5), None);
}

#[test]
fn path_map_reverse_lookup() {
    let mut pm = PathMap::new();
    pm.insert(String::from("/x.lua"), 3);
    assert_eq!(pm.get_path(3), Some(String::from("/x.lua")));
    assert_eq!(pm.remove(&String::from("/x.lua")), Some(3));
    assert_eq!(pm.get_path(3), None);
    assert_eq!(pm.remove(&String::from("/x.lua")), None);
}

#[test]
fn queue_assigns_consecutive_numbers() {
    let mut q = MessageQueue::new(8);
    assert_eq!(q.push(Vec::new(), 100), 0);
    assert_eq!(q.push(Vec::new(), 101), 1);
    assert_eq!(q.push(Vec::new(), 102), 2);
    assert_eq!(q.next_sequence(), 3);
}

#[test]
fn queue_poll_returns_everything_since_cursor_in_order() {
    let mut q = MessageQueue::new(8);
    let cursor = q.subscribe();
    q.push(Vec::new(), 100);
    q.push(Vec::new(), 101);
    let (msgs, next) = q.poll(cursor).expect("cursor is live");
    assert_eq!(msgs.len(), 2);
    assert_eq!(msgs[0].number, 0);
    assert_eq!(msgs[0].timestamp, 100);
    assert_eq!(msgs[1].number, 1);
    assert_eq!(msgs[1].timestamp, 101);
    let (more, _) = q.poll(next).expect("cursor is live");
    assert!(more.is_empty());
}

#[test]
fn queue_expired_cursor_is_reported_not_truncated() {
    let mut q = MessageQueue::new(2);
    let cursor = q.subscribe();
    q.push(Vec::new(), 1);
    q.push(Vec::new(), 2);
    q.push(Vec::new(), 3);
    // Retention holds 2 messages; the cursor at 0 fell behind.
    assert_eq!(q.poll(cursor), Err(PollError::CursorExpired));
    // A cursor inside the window still works and sees only retained messages.
    let (msgs, _) = q.poll(1).expect("inside the window");
    assert_eq!(msgs.len(), 2);
    assert_eq!(msgs[0].number, 1);
}

#[test]
fn imfs_refresh_caches_and_snapshot_detaches() {
    let mut fetcher = MockFetcher::new();
    fetcher.files.push((String::from("/Main.lua"), String::from("print(\"hi\")")));
    let mut imfs = Imfs::new(fetcher);
    let path = String::from("/Main.lua");
    let snap = imfs.refresh(&path, 4).expect("the file exists");
    match &snap {
        ImfsSnapshot::File { contents } => assert_eq!(contents, "print(\"hi\")"),
        _ => panic!("a file snapshot"),
    }
    // The cached copy survives a change to the underlying fetcher state.
    imfs.fetcher.files.clear();
    let cached = imfs.snapshot(&path).expect("still cached");
    match cached {
        ImfsSnapshot::File { contents } => assert_eq!(contents, "print(\"hi\")"),
        _ => panic!("a file snapshot"),
    }
    imfs.remove_entry(&path);
    assert!(imfs.snapshot(&path).is_none());
}

#[test]
fn imfs_errors_are_typed() {
    let mut fetcher = MockFetcher::new();
    fetcher.denied.push(String::from("/secret.lua"));
    fetcher.dirs.push((String::from("/deep"), vec![String::from("more")]));
    fetcher.dirs.push((String::from("/deep/more"), Vec::new()));
    let mut imfs = Imfs::new(fetcher);
    assert_eq!(imfs.refresh(&String::from("/gone.lua"), 4), Err(FsError::NotFound));
    assert_eq!(imfs.refresh(&String::from("/secret.lua"), 4), Err(FsError::PermissionDenied));
    // Depth exhaustion on a directory surfaces as an I/O error.
    assert_eq!(imfs.refresh(&String::from("/deep"), 0), Err(FsError::Io));
    assert!(imfs.snapshot(&String::from("/gone.lua")).is_none());
}

#[test]
fn middleware_variants_are_mutually_exclusive() {
    let file = ImfsSnapshot::File { contents: String::from("x = 1") };
    let dir = ImfsSnapshot::Directory { children: Vec::new() };
    let lua = String::from("Main.lua");
    let txt = String::from("notes.txt");
    // A .lua file belongs to the script middleware alone.
    assert!(script_convert(&file, &lua).is_some());
    assert!(folder_convert(&file, &lua).is_none());
    // A directory belongs to the folder middleware alone.
    assert!(script_convert(&dir, &lua).is_none());
    assert!(folder_convert(&dir, &lua).is_some());
    // Any other file shape is opaque: no variant claims it.
    assert!(script_convert(&file, &txt).is_none());
    assert!(folder_convert(&file, &txt).is_none());
    assert!(snapshot_from_entry(&file, &txt).is_none());
}

#[test]
fn script_directory_converts_to_folder_with_script() {
    let mut fetcher = MockFetcher::new();
    fetcher.dirs.push((String::from("/Scripts"), vec![String::from("Main.lua")]));
    fetcher
        .files
        .push((String::from("/Scripts/Main.lua"), String::from("print(\"hi\")")));
    let mut imfs = Imfs::new(fetcher);
    let entry = imfs.refresh(&String::from("/Scripts"), 4).expect("the directory exists");
    let snap = snapshot_from_entry(&entry, &String::from("Scripts")).expect("a folder shape");
    assert_eq!(snap.class_name, "Folder");
    assert_eq!(snap.name, "Scripts");
    assert!(snap.properties.is_empty());
    assert_eq!(snap.children.len(), 1);
    let script = &snap.children[0];
    assert_eq!(script.class_name, "Script");
    assert_eq!(script.name, "Main");
    assert!(script.children.is_empty());
    assert_eq!(script.properties.len(), 1);
    assert_eq!(script.properties[0].name, "Source");
    assert_eq!(
        script.properties[0].value,
        PropValue::Str(String::from("print(\"hi\")"))
    );
}

#[test]
fn queue_of_capacity_one_keeps_only_the_newest() {
    let mut q = MessageQueue::new(1);
    q.push(Vec::new(), 1);
    q.push(Vec::new(), 2);
    let (msgs, _) = q.poll(1).expect("the newest is retained");
    assert_eq!(msgs.len(), 1);
    assert_eq!(msgs[0].timestamp, 2);
    assert_eq!(q.poll(0), Err(PollError::CursorExpired));
}

#[test]
fn queue_cursor_ahead_is_rejected() {
    let mut q = MessageQueue::new(4);
    q.push(Vec::new(), 1);
    assert_eq!(q.poll(5), Err(PollError::CursorAhead));
}

#[test]
fn empty_path_map_answers_nothing() {
    let pm = PathMap::new();
    assert_eq!(pm.get(&String::from("/any")), None);
    assert_eq!(pm.get_path(1), None);
}

#[test]
fn script_name_needs_a_nonempty_stem() {
    let file = ImfsSnapshot::File { contents: String::from("x") };
    assert!(script_convert(&file, &String::from(".lua")).is_none());
    assert!(script_convert(&file, &String::from("a.lua")).is_some());
}
