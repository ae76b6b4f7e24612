use zpad::atomic::{AtomicWrite, WriteAction, WriteFailure, WriteStage};
use zpad::session::{Session, ShowNote, DEFAULT_SIZE};
use zpad::sizes::SizeTable;

fn sizes(entries: &[(u64, (i32, i32))]) -> SizeTable {
    let mut t = SizeTable::new();
    for &(id, size) in entries {
        t.insert(id, size);
    }
    t
}

#[test]
fn startup_drops_sizes_of_missing_notes() {
    let s = Session::new(sizes(&[(1, (10, 10)), (2, (20, 20))]), &vec![2, 3], 4);
    assert_eq!(s.size_for(1), DEFAULT_SIZE);
    assert_eq!(s.size_for(2), (20, 20));
    assert!(s.window_ids().is_empty());
}

#[test]
fn new_notes_get_fresh_growing_ids() {
    let mut s = Session::new(SizeTable::new(), &vec![], 1);
    let a = s.reserve_note_id(1, &vec![]);
    assert_eq!(a, 1);
    s.open_note(a);
    // ids 2 and 3 appeared on disk meanwhile; 5 is taken too
    let b = s.reserve_note_id(2, &vec![2, 3, 5]);
    assert_eq!(b, 4);
    let c = s.reserve_note_id(1, &vec![2, 3, 5]);
    assert_eq!(c, 6);
    // an id left unused (never saved) is not handed out again
    let d = s.reserve_note_id(1, &vec![]);
    assert_eq!(d, 7);
}

#[test]
fn showing_notes() {
    let mut s = Session::new(sizes(&[(3, (300, 200))]), &vec![3], 4);
    assert_eq!(s.show_note(3), ShowNote::Load(300, 200));
    assert_eq!(s.show_note(8), ShowNote::Load(DEFAULT_SIZE.0, DEFAULT_SIZE.1));
    assert!(s.show_all());
    s.open_note(3);
    assert_eq!(s.show_note(3), ShowNote::Present);
    s.hide_all();
    assert!(!s.show_all());
    assert_eq!(s.window_ids(), vec![3]);
}

#[test]
fn without_a_tray_hiding_the_last_note_quits() {
    let mut s = Session::new(SizeTable::new(), &vec![], 1);
    s.open_note(1);
    s.open_note(2);
    s.set_visible(1, false);
    assert!(!s.should_quit_after_hide());
    s.set_visible(2, false);
    assert!(s.should_quit_after_hide());
    s.set_tray();
    assert!(!s.should_quit_after_hide());
}

#[test]
fn sizes_are_saved_only_when_they_change() {
    let mut s = Session::new(SizeTable::new(), &vec![], 1);
    s.open_note(1);
    assert!(s.remember_size(1, (100, 100)));
    assert!(!s.remember_size(1, (100, 100)));
    assert!(s.remember_size(1, (120, 100)));
    assert!(s.remember_size(2, (50, 50)));
    let persisted = s.persisted_sizes();
    assert_eq!(persisted.get(1), Some((120, 100)));
    assert_eq!(persisted.get(2), None);
}

#[test]
fn deleting_twice_is_deleting_once() {
    let mut s = Session::new(SizeTable::new(), &vec![], 1);
    s.open_note(1);
    s.remember_size(1, (10, 10));
    assert!(s.delete_note(1));
    assert!(!s.is_open(1));
    assert_eq!(s.size_for(1), DEFAULT_SIZE);
    assert!(!s.delete_note(1));
    assert!(!s.is_open(1));
}

fn run(results: &[bool]) -> (Vec<WriteAction>, Result<(), WriteFailure>) {
    let mut w = AtomicWrite::new("/d".to_string(), "/d/f.txt".to_string());
    assert_eq!(w.temp, "/d/f.txt.tmp");
    assert_eq!(w.stage, WriteStage::Start);
    let mut actions = Vec::new();
    let mut results = results.iter();
    loop {
        match w.action() {
            WriteAction::Finish(r) => return (actions, r),
            a => {
                actions.push(a);
                w.record(*results.next().unwrap());
            }
        }
    }
}

#[test]
fn atomic_write_steps() {
    let (actions, result) = run(&[true, true, true, true, true, false]);
    assert_eq!(actions, vec![WriteAction::CreateTemp, WriteAction::WriteData, WriteAction::Flush, WriteAction::SyncFile, WriteAction::RenameOverTarget, WriteAction::SyncDir]);
    assert_eq!(result, Ok(()));
    let (actions, result) = run(&[true, true, true, true, false, false]);
    assert_eq!(actions, vec![WriteAction::CreateTemp, WriteAction::WriteData, WriteAction::Flush, WriteAction::SyncFile, WriteAction::RenameOverTarget, WriteAction::RemoveTemp]);
    assert_eq!(result, Err(WriteFailure::Rename));
    assert_eq!(run(&[false]).1, Err(WriteFailure::CreateTemp));
    assert_eq!(run(&[true, false]).1, Err(WriteFailure::Write));
    assert_eq!(run(&[true, true, false]).1, Err(WriteFailure::Flush));
    assert_eq!(run(&[true, true, true, false]).1, Err(WriteFailure::Sync));
    assert_eq!(run(&[true, true, true, false]).0, vec![WriteAction::CreateTemp, WriteAction::WriteData, WriteAction::Flush, WriteAction::SyncFile]);
}

#[test]
fn relative_targets_get_a_sibling_temp_file() {
    let w = AtomicWrite::new("d".to_string(), "d/f.txt".to_string());
    assert_eq!(w.temp, "d/f.txt.tmp");
    assert_eq!(w.dir, "d");
}
