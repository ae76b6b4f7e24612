use std::collections::BTreeMap;

use zpad::atomic::{AtomicWrite, WriteAction, WriteFailure};
use zpad::paths::{data_dir, DataDirError};
use zpad::sizes::{sizes_from_geoms, NoteGeom, SizeTable, STATE_VERSION};
use zpad::storage::{note_id_from_file_name, DirEntry, NoteFile, Store};

/// A file system held in memory: file paths to contents.
struct Disk {
    files: BTreeMap<String, Vec<u8>>,
}

impl Disk {
    fn new() -> Disk {
        Disk { files: BTreeMap::new() }
    }

    /// Runs an atomic write step by step against the files.
    fn run(&mut self, mut write: AtomicWrite, data: &[u8]) -> Result<(), WriteFailure> {
        loop {
            let ok = match write.action() {
                WriteAction::CreateTemp => {
                    self.files.insert(write.temp.clone(), Vec::new());
                    true
                }
                WriteAction::WriteData => {
                    self.files.insert(write.temp.clone(), data.to_vec());
                    true
                }
                WriteAction::Flush | WriteAction::SyncFile | WriteAction::SyncDir => true,
                WriteAction::RenameOverTarget => match self.files.remove(&write.temp) {
                    Some(bytes) => {
                        self.files.insert(write.target.clone(), bytes);
                        true
                    }
                    None => false,
                },
                WriteAction::RemoveTemp => self.files.remove(&write.temp).is_some(),
                WriteAction::Finish(result) => return result,
            };
            write.record(ok);
        }
    }

    fn save_note(&mut self, store: &Store, id: u64, text: &str) -> Result<(), WriteFailure> {
        let save = store.save_note(id, text);
        self.run(save.write, &save.data)
    }

    /// The entries of a directory, read.
    fn listing(&self, dir: &str) -> Vec<DirEntry> {
        let prefix = format!("{dir}/");
        self.files
            .iter()
            .filter_map(|(path, bytes)| {
                let name = path.strip_prefix(&prefix)?;
                if name.contains('/') {
                    return None;
                }
                Some(DirEntry { name: name.to_string(), contents: Some(bytes.clone()) })
            })
            .collect()
    }

    fn load_notes(&self, store: &Store) -> Vec<NoteFile> {
        store.load_notes(&self.listing(&store.notes_dir()))
    }
}

fn store() -> Store {
    Store::new("/tmp/zpad-test".to_string())
}

#[test]
fn note_roundtrip() {
    let store = store();
    let mut disk = Disk::new();
    disk.save_note(&store, 1, "hello\nworld\n").unwrap();
    let notes = disk.load_notes(&store);
    assert_eq!(notes, vec![NoteFile { id: 1, text: "hello\nworld\n".into() }]);
}

#[test]
fn save_overwrites_atomically() {
    let store = store();
    let mut disk = Disk::new();
    disk.save_note(&store, 2, "first").unwrap();
    disk.save_note(&store, 2, "second").unwrap();
    assert_eq!(disk.load_notes(&store)[0].text, "second");
    assert!(!disk.files.contains_key("/tmp/zpad-test/notes/2.txt.tmp"));
}

#[test]
fn delete_removes_note_and_is_idempotent() {
    let store = store();
    let mut disk = Disk::new();
    disk.save_note(&store, 3, "bye").unwrap();
    let path = store.delete_note(3);
    assert_eq!(path, "/tmp/zpad-test/notes/3.txt");
    assert!(disk.files.remove(&path).is_some());
    assert!(disk.load_notes(&store).is_empty());
    // a second delete finds nothing to remove, which counts as deleted
    assert!(disk.files.remove(&store.delete_note(3)).is_none());
    assert!(disk.load_notes(&store).is_empty());
}

#[test]
fn next_id_grows_past_max() {
    let store = store();
    let mut disk = Disk::new();
    assert_eq!(store.next_id(Some(&disk.load_notes(&store))), 1);
    disk.save_note(&store, 7, "seven").unwrap();
    assert_eq!(store.next_id(Some(&disk.load_notes(&store))), 8);
}

#[test]
fn next_id_is_one_when_the_directory_cannot_be_listed() {
    assert_eq!(store().next_id(None), 1);
}

#[test]
fn sizes_roundtrip() {
    let store = store();
    let mut sizes = SizeTable::new();
    sizes.insert(1u64, (260, 220));
    sizes.insert(4u64, (400, 300));
    let save = store.save_sizes(&sizes);
    assert_eq!(save.state.version, STATE_VERSION);
    assert_eq!(save.write.target, "/tmp/zpad-test/state.toml");
    assert_eq!(save.write.temp, "/tmp/zpad-test/state.toml.tmp");
    assert_eq!(save.dir, "/tmp/zpad-test/notes");
    let loaded = store.load_sizes(Some(save.state));
    assert_eq!(loaded.len(), 2);
    assert_eq!(loaded.get(1), Some((260, 220)));
    assert_eq!(loaded.get(4), Some((400, 300)));
}

#[test]
fn corrupt_state_yields_empty_not_error() {
    let store = store();
    assert!("not [ valid toml {{{{".parse::<toml::Table>().is_err());
    assert_eq!(store.load_sizes(None).len(), 0);
}

#[test]
fn missing_everything_is_empty() {
    let store = store();
    assert!(store.load_notes(&Vec::new()).is_empty());
    assert_eq!(store.load_sizes(None).len(), 0);
}

#[test]
fn non_note_files_are_skipped() {
    let store = store();
    let listing = vec![
        DirEntry { name: "5.txt".into(), contents: Some(b"real".to_vec()) },
        DirEntry { name: "readme.md".into(), contents: Some(b"nope".to_vec()) },
        DirEntry { name: "notes.bak".into(), contents: Some(b"nope".to_vec()) },
    ];
    let notes = store.load_notes(&listing);
    assert_eq!(notes.len(), 1);
    assert_eq!(notes[0].id, 5);
}

#[test]
fn invalid_utf8_loads_lossily() {
    let store = store();
    let listing = vec![DirEntry { name: "9.txt".into(), contents: Some(vec![0x68, 0x69, 0xFF]) }];
    let notes = store.load_notes(&listing);
    assert_eq!(notes[0].text, "hi\u{FFFD}");
}

#[test]
fn xdg_requires_absolute() {
    assert_eq!(data_dir(Some("relative/path"), None), Err(DataDirError::RelativeDataHome));
    assert_eq!(data_dir(Some("relative/path"), Some("/home/u")), Err(DataDirError::RelativeDataHome));
}

#[test]
fn data_dir_follows_xdg_and_home() {
    assert_eq!(data_dir(Some("/data"), Some("/home/u")), Ok("/data/zpad".to_string()));
    assert_eq!(data_dir(Some(""), Some("/home/u")), Ok("/home/u/.local/share/zpad".to_string()));
    assert_eq!(data_dir(None, Some("/home/u/")), Ok("/home/u/.local/share/zpad".to_string()));
    assert_eq!(data_dir(None, None), Err(DataDirError::HomeNotSet));
    assert_eq!(data_dir(Some(""), None), Err(DataDirError::HomeNotSet));
}

#[test]
fn notes_are_ordered_by_id_and_unreadable_ones_skipped() {
    let store = store();
    let listing = vec![
        DirEntry { name: "10.txt".into(), contents: Some(b"ten".to_vec()) },
        DirEntry { name: "2.txt".into(), contents: Some(b"two".to_vec()) },
        DirEntry { name: "3.txt".into(), contents: None },
        DirEntry { name: "+2.txt".into(), contents: Some(b"plus two".to_vec()) },
        DirEntry { name: "1.txt".into(), contents: Some(b"one".to_vec()) },
    ];
    let notes = store.load_notes(&listing);
    let got: Vec<(u64, &str)> = notes.iter().map(|n| (n.id, n.text.as_str())).collect();
    assert_eq!(got, vec![(1, "one"), (2, "two"), (2, "plus two"), (10, "ten")]);
}

#[test]
fn note_file_names() {
    assert_eq!(Store::note_file_name(0), "0.txt");
    assert_eq!(Store::note_file_name(u64::MAX), "18446744073709551615.txt");
    assert_eq!(note_id_from_file_name("42.txt"), Some(42));
    assert_eq!(note_id_from_file_name("+5.txt"), Some(5));
    assert_eq!(note_id_from_file_name("007.txt"), Some(7));
    assert_eq!(note_id_from_file_name("18446744073709551615.txt"), Some(u64::MAX));
    assert_eq!(note_id_from_file_name("18446744073709551616.txt"), None);
    assert_eq!(note_id_from_file_name(".txt"), None);
    assert_eq!(note_id_from_file_name("+.txt"), None);
    assert_eq!(note_id_from_file_name("-1.txt"), None);
    assert_eq!(note_id_from_file_name("5.TXT"), None);
    assert_eq!(note_id_from_file_name("5.txt.tmp"), None);
    assert_eq!(note_id_from_file_name("a.txt"), None);
    assert_eq!(note_id_from_file_name("1.5.txt"), None);
}

#[test]
fn store_paths() {
    let store = Store::new("/home/u/.local/share/zpad".to_string());
    assert_eq!(store.notes_dir(), "/home/u/.local/share/zpad/notes");
    assert_eq!(store.note_path(12), "/home/u/.local/share/zpad/notes/12.txt");
    assert_eq!(store.state_path(), "/home/u/.local/share/zpad/state.toml");
    let save = store.save_note(12, "é");
    assert_eq!(save.dir, "/home/u/.local/share/zpad/notes");
    assert_eq!(save.write.temp, "/home/u/.local/share/zpad/notes/12.txt.tmp");
    assert_eq!(save.data, "é".as_bytes().to_vec());
}

#[test]
fn relative_data_dir_saves_through_a_sibling_temp_file() {
    let store = Store::new("data".to_string());
    let save = store.save_note(1, "x");
    assert_eq!(save.dir, "data/notes");
    assert_eq!(save.write.target, "data/notes/1.txt");
    assert_eq!(save.write.temp, "data/notes/1.txt.tmp");
    let mut disk = Disk::new();
    assert_eq!(disk.run(save.write, &save.data), Ok(()));
    assert_eq!(disk.files.get("data/notes/1.txt"), Some(&b"x".to_vec()));
    assert!(!disk.files.contains_key("data/notes/1.txt.tmp"));
}

#[test]
fn sizes_from_records_keep_the_last_per_id() {
    let geoms = vec![
        NoteGeom { id: 1, width: 10, height: 20 },
        NoteGeom { id: 2, width: 30, height: 40 },
        NoteGeom { id: 1, width: 50, height: 60 },
    ];
    let sizes = sizes_from_geoms(&geoms);
    assert_eq!(sizes.len(), 2);
    assert_eq!(sizes.get(1), Some((50, 60)));
    assert_eq!(sizes.get(2), Some((30, 40)));
    assert_eq!(sizes.get(3), None);
}
