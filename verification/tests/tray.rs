use zpad::icon::sticky_icon;
use zpad::tray::{
    note_label, sort_newest_first, tray_menu, tray_snapshot, MenuEntry, MenuItem, TrayAction, TrayNote,
};

fn note(id: u64, title: &str, visible: bool, mtime: u64) -> TrayNote {
    TrayNote { id, title: title.to_string(), visible, mtime }
}

fn item(label: &str, action: TrayAction) -> MenuEntry {
    MenuEntry::Item(MenuItem { label: label.to_string(), action })
}

fn tail() -> Vec<MenuEntry> {
    vec![
        item("Show all", TrayAction::ShowNotes),
        item("Close all", TrayAction::HideNotes),
        item("Help", TrayAction::Help),
        item("Preferences", TrayAction::Preferences),
        MenuEntry::Separator,
        item("Quit", TrayAction::Quit),
    ]
}

#[test]
fn note_labels_mark_visibility_and_escape_underscores() {
    assert_eq!(note_label(&note(1, "my_note", true, 0)), "● my__note");
    assert_eq!(note_label(&note(1, "__", false, 0)), "○ ____");
    assert_eq!(note_label(&note(1, "", false, 0)), "○ ");
}

#[test]
fn newest_notes_come_first_and_ties_keep_their_order() {
    let sorted = sort_newest_first(vec![
        note(1, "a", false, 5),
        note(2, "b", false, 9),
        note(3, "c", false, 5),
        note(4, "d", false, 0),
        note(5, "e", false, 9),
    ]);
    let ids: Vec<u64> = sorted.iter().map(|n| n.id).collect();
    assert_eq!(ids, vec![2, 5, 1, 3, 4]);
}

#[test]
fn menu_without_notes() {
    let mut expected = vec![item("New note", TrayAction::NewNote)];
    expected.extend(tail());
    assert_eq!(tray_menu(Vec::new()), expected);
}

#[test]
fn menu_lists_notes_between_separators() {
    let menu = tray_menu(vec![note(1, "old", false, 1), note(2, "new", true, 2)]);
    let mut expected = vec![
        item("New note", TrayAction::NewNote),
        MenuEntry::Separator,
        item("● new", TrayAction::ShowNote(2)),
        item("○ old", TrayAction::ShowNote(1)),
        MenuEntry::Separator,
    ];
    expected.extend(tail());
    assert_eq!(menu, expected);
}

#[test]
fn older_notes_fold_into_a_submenu() {
    let notes: Vec<TrayNote> = (1..=12).map(|i| note(i, &format!("n{i}"), false, i)).collect();
    let menu = tray_menu(notes);
    assert_eq!(menu.len(), 1 + 1 + 10 + 1 + 1 + 6);
    assert_eq!(menu[2], item("○ n12", TrayAction::ShowNote(12)));
    assert_eq!(menu[11], item("○ n3", TrayAction::ShowNote(3)));
    assert_eq!(
        menu[12],
        MenuEntry::Submenu(
            "Older notes (2)".to_string(),
            vec![
                MenuItem { label: "○ n2".to_string(), action: TrayAction::ShowNote(2) },
                MenuItem { label: "○ n1".to_string(), action: TrayAction::ShowNote(1) },
            ]
        )
    );
    assert_eq!(menu[13], MenuEntry::Separator);
}

#[test]
fn exactly_ten_notes_need_no_submenu() {
    let notes: Vec<TrayNote> = (1..=10).map(|i| note(i, "t", false, i)).collect();
    let menu = tray_menu(notes);
    assert_eq!(menu.len(), 1 + 1 + 10 + 1 + 6);
    assert!(!menu.iter().any(|e| matches!(e, MenuEntry::Submenu(_, _))));
}

#[test]
fn open_windows_override_disk_entries() {
    let disk = vec![note(1, "disk one", true, 10), note(2, "disk two", false, 20)];
    let live = vec![note(2, "live two", true, 21), note(9, "unsaved", true, 0)];
    let snap = tray_snapshot(disk, live);
    assert_eq!(
        snap,
        vec![
            note(1, "disk one", false, 10),
            note(2, "live two", true, 21),
            note(9, "unsaved", true, 0),
        ]
    );
}

#[test]
fn icon_pixels() {
    let icon = sticky_icon(48);
    assert_eq!((icon.width, icon.height), (48, 48));
    assert_eq!(icon.data.len(), 48 * 48 * 4);
    let px = |x: usize, y: usize| -> [u8; 4] {
        let i = (y * 48 + x) * 4;
        [icon.data[i], icon.data[i + 1], icon.data[i + 2], icon.data[i + 3]]
    };
    assert_eq!(px(47, 0), [0, 0, 0, 0]); // corner cut away
    assert_eq!(px(36, 0), [255, 255, 232, 111]); // curled flap
    assert_eq!(px(0, 0), [255, 214, 200, 110]); // outline
    assert_eq!(px(10, 10), [255, 255, 249, 196]); // paper
    assert_eq!(px(10, 18), [255, 227, 217, 141]); // first ruled line
    assert_eq!(px(30, 30), [255, 255, 249, 196]); // the short last line ends early
    assert_eq!(px(20, 30), [255, 227, 217, 141]);
}

#[test]
fn small_icons() {
    assert!(sticky_icon(0).data.is_empty());
    let icon = sticky_icon(4);
    assert_eq!(icon.data.len(), 64);
    assert_eq!(&icon.data[12..16], &[255, 255, 232, 111]);
}
