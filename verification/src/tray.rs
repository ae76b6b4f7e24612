//! The tray menu: every note by title, newest first, the ten most recent
//! in the menu itself and the older ones folded into a submenu, then the
//! app-wide entries. The library builds the menu as plain values; the
//! tray service shows it.

use vstd::prelude::*;
use crate::sort::{
    into_items, items, keys_ascending, lemma_sort_is_stable, lemma_sort_map, lemma_sorted_by_key,
    map_items, sorted_by_key, stable_sort_by_key, with_key,
};
use crate::text::{decimal, push_char, push_decimal};

verus! {

/// One note as seen by the tray menu.
#[derive(Debug, Clone, PartialEq, Eq)]
pub struct TrayNote {
    pub id: u64,
    pub title: String,
    pub visible: bool,
    /// File modification time, used to sort newest-first in the menu.
    pub mtime: u64,
}

pub struct TrayNoteView {
    pub id: u64,
    pub title: Seq<char>,
    pub visible: bool,
    pub mtime: u64,
}

impl View for TrayNote {
    type V = TrayNoteView;

    open spec fn view(&self) -> TrayNoteView {
        TrayNoteView { id: self.id, title: self.title@, visible: self.visible, mtime: self.mtime }
    }
}

pub open spec fn tray_notes_view(s: Seq<TrayNote>) -> Seq<TrayNoteView> {
    s.map_values(|n: TrayNote| n@)
}

/// What a menu entry does when picked.
#[derive(Debug, Clone, Copy, PartialEq, Eq)]
pub enum TrayAction {
    NewNote,
    ShowNotes,
    HideNotes,
    Help,
    Preferences,
    Quit,
    /// Surface just this note.
    ShowNote(u64),
}

/// A clickable menu entry.
#[derive(Debug, Clone, PartialEq, Eq)]
pub struct MenuItem {
    pub label: String,
    pub action: TrayAction,
}

pub struct MenuItemView {
    pub label: Seq<char>,
    pub action: TrayAction,
}

impl View for MenuItem {
    type V = MenuItemView;

    open spec fn view(&self) -> MenuItemView {
        MenuItemView { label: self.label@, action: self.action }
    }
}

/// One entry of the tray menu.
#[derive(Debug, Clone, PartialEq, Eq)]
pub enum MenuEntry {
    Item(MenuItem),
    Separator,
    /// A submenu with its label and its entries.
    Submenu(String, Vec<MenuItem>),
}

pub enum MenuEntryView {
    Item(MenuItemView),
    Separator,
    Submenu(Seq<char>, Seq<MenuItemView>),
}

pub open spec fn items_view(s: Seq<MenuItem>) -> Seq<MenuItemView> {
    s.map_values(|i: MenuItem| i@)
}

impl View for MenuEntry {
    type V = MenuEntryView;

    open spec fn view(&self) -> MenuEntryView {
        match self {
            MenuEntry::Item(i) => MenuEntryView::Item(i@),
            MenuEntry::Separator => MenuEntryView::Separator,
            MenuEntry::Submenu(l, v) => MenuEntryView::Submenu(l@, items_view(v@)),
        }
    }
}

pub open spec fn entries_view(s: Seq<MenuEntry>) -> Seq<MenuEntryView> {
    s.map_values(|e: MenuEntry| e@)
}

/// At most this many notes stand in the menu itself.
pub const MAX_FLAT: usize = 10;

/// The key that sorts newer notes first.
pub open spec fn age_key(mtime: u64) -> u64 {
    (u64::MAX - mtime) as u64
}

pub open spec fn by_age(s: Seq<TrayNoteView>) -> Seq<(u64, TrayNoteView)> {
    s.map_values(|n: TrayNoteView| (age_key(n.mtime), n))
}

/// The notes, newest first; notes of the same age keep their order
/// (a stable sort by `Reverse(mtime)`).
pub open spec fn newest_first(s: Seq<TrayNoteView>) -> Seq<TrayNoteView> {
    items(sorted_by_key(by_age(s)))
}

/// `_` doubled, so that menus do not read it as a mnemonic marker.
pub open spec fn escape_underscores(t: Seq<char>) -> Seq<char>
    decreases t.len(),
{
    if t.len() == 0 {
        seq![]
    } else {
        escape_underscores(t.drop_last()) + if t.last() == '_' {
            seq!['_', '_']
        } else {
            seq![t.last()]
        }
    }
}

/// `● ` for a note that is open on screen, `○ ` for a hidden one.
pub open spec fn marker(visible: bool) -> Seq<char> {
    if visible {
        seq!['●', ' ']
    } else {
        seq!['○', ' ']
    }
}

/// The menu entry of one note.
pub open spec fn note_item(n: TrayNoteView) -> MenuItemView {
    MenuItemView { label: marker(n.visible) + escape_underscores(n.title), action: TrayAction::ShowNote(n.id) }
}

pub open spec fn note_items(s: Seq<TrayNoteView>) -> Seq<MenuItemView> {
    s.map_values(|n: TrayNoteView| note_item(n))
}

pub open spec fn plain(label: Seq<char>, action: TrayAction) -> MenuEntryView {
    MenuEntryView::Item(MenuItemView { label, action })
}

/// `Older notes (<n>)`.
pub open spec fn older_label(n: nat) -> Seq<char> {
    "Older notes ("@ + decimal(n) + ")"@
}

/// The notes part of the menu for notes already sorted newest first.
pub open spec fn notes_section(sorted: Seq<TrayNoteView>) -> Seq<MenuEntryView> {
    if sorted.len() == 0 {
        seq![]
    } else {
        let flat = if sorted.len() > MAX_FLAT {
            sorted.take(MAX_FLAT as int)
        } else {
            sorted
        };
        let older = if sorted.len() > MAX_FLAT {
            seq![
                MenuEntryView::Submenu(
                    older_label((sorted.len() - MAX_FLAT) as nat),
                    note_items(sorted.skip(MAX_FLAT as int)),
                ),
            ]
        } else {
            seq![]
        };
        seq![MenuEntryView::Separator] + note_items(flat).map_values(
            |i: MenuItemView| MenuEntryView::Item(i),
        ) + older + seq![MenuEntryView::Separator]
    }
}

/// The whole tray menu for a snapshot of the notes.
pub open spec fn tray_menu_spec(snapshot: Seq<TrayNoteView>) -> Seq<MenuEntryView> {
    seq![plain("New note"@, TrayAction::NewNote)] + notes_section(newest_first(snapshot)) + seq![
        plain("Show all"@, TrayAction::ShowNotes),
        plain("Close all"@, TrayAction::HideNotes),
        plain("Help"@, TrayAction::Help),
        plain("Preferences"@, TrayAction::Preferences),
        MenuEntryView::Separator,
        plain("Quit"@, TrayAction::Quit),
    ]
}

/// The label of a note's menu entry: the visibility marker, then the
/// title with `_` doubled.
pub fn note_label(note: &TrayNote) -> (label: String)
    ensures
        label@ == marker(note.visible) + escape_underscores(note.title@),
{
    let mut label = String::new();
    if note.visible {
        push_char(&mut label, '●');
    } else {
        push_char(&mut label, '○');
    }
    push_char(&mut label, ' ');
    let t = crate::text::chars_of(note.title.as_str());
    let ghost m = label@;
    let mut i: usize = 0;
    while i < t.len()
        invariant
            i <= t@.len(),
            t@ == note.title@,
            label@ == m + escape_underscores(t@.take(i as int)),
        decreases t@.len() - i,
    {
        assert(t@.take(i + 1).drop_last() =~= t@.take(i as int));
        assert(t@.take(i + 1).last() == t@[i as int]);
        if t[i] == '_' {
            push_char(&mut label, '_');
            push_char(&mut label, '_');
        } else {
            push_char(&mut label, t[i]);
        }
        assert(label@ =~= m + escape_underscores(t@.take(i + 1)));
        i = i + 1;
    }
    assert(t@.take(t@.len() as int) =~= t@);
    label
}

/// The menu entry that surfaces just this note.
pub fn note_item_of(note: &TrayNote) -> (item: MenuItem)
    ensures
        item@ == note_item(note@),
{
    MenuItem { label: note_label(note), action: TrayAction::ShowNote(note.id) }
}

/// The notes, newest first (stable for equal modification times).
pub fn sort_newest_first(notes: Vec<TrayNote>) -> (sorted: Vec<TrayNote>)
    ensures
        tray_notes_view(sorted@) == newest_first(tray_notes_view(notes@)),
{
    let ghost orig = notes@;
    let total = notes.len();
    let mut keyed: Vec<(u64, TrayNote)> = Vec::new();
    let mut rest = notes;
    let mut i: usize = 0;
    while rest.len() > 0
        invariant
            i + rest@.len() == orig.len(),
            total == orig.len(),
            rest@ =~= orig.skip(i as int),
            keyed@.len() == i,
            forall|j: int| 0 <= j < i ==> #[trigger] keyed@[j] == (age_key(orig[j].mtime), orig[j]),
        decreases rest@.len(),
    {
        let n = rest.remove(0);
        assert(orig[i as int] == n);
        let key = u64::MAX - n.mtime;
        keyed.push((key, n));
        i = i + 1;
    }
    let ghost kv = keyed@;
    assert(map_items(kv, |n: TrayNote| n@) =~= by_age(tray_notes_view(orig)));
    let sorted = stable_sort_by_key(keyed);
    proof {
        lemma_sort_map(kv, |n: TrayNote| n@);
    }
    let r = into_items(sorted);
    assert(tray_notes_view(r@) =~= items(map_items(sorted_by_key(kv), |n: TrayNote| n@)));
    r
}

fn plain_item(label: &str, action: TrayAction) -> (e: MenuEntry)
    ensures
        e@ == plain(label@, action),
{
    MenuEntry::Item(MenuItem { label: String::from_str(label), action })
}

/// The tray menu for a snapshot of the notes: `New note`; then, when
/// there are notes, a separator, the ten newest notes, an `Older notes (n)`
/// submenu with the rest, and a separator; then `Show all`, `Close all`,
/// `Help`, `Preferences`, a separator and `Quit`.
pub fn tray_menu(snapshot: Vec<TrayNote>) -> (menu: Vec<MenuEntry>)
    ensures
        entries_view(menu@) == tray_menu_spec(tray_notes_view(snapshot@)),
{
    let sorted = sort_newest_first(snapshot);
    let ghost sv = tray_notes_view(sorted@);
    let mut menu: Vec<MenuEntry> = Vec::new();
    menu.push(plain_item("New note", TrayAction::NewNote));
    let n = sorted.len();
    if n > 0 {
        menu.push(MenuEntry::Separator);
        let flat = if n > MAX_FLAT {
            MAX_FLAT
        } else {
            n
        };
        let ghost start = menu@;
        let mut i: usize = 0;
        while i < flat
            invariant
                flat <= n == sorted@.len(),
                i <= flat,
                sv == tray_notes_view(sorted@),
                menu@.len() == start.len() + i,
                forall|j: int| 0 <= j < start.len() ==> #[trigger] menu@[j] == start[j],
                forall|j: int|
                    0 <= j < i ==> #[trigger] menu@[start.len() + j]@ == MenuEntryView::Item(
                        note_item(sv[j]),
                    ),
            decreases flat - i,
        {
            menu.push(MenuEntry::Item(note_item_of(&sorted[i])));
            i = i + 1;
        }
        let ghost after_flat = menu@;
        if n > MAX_FLAT {
            let mut older: Vec<MenuItem> = Vec::new();
            let mut k: usize = MAX_FLAT;
            while k < n
                invariant
                    MAX_FLAT <= k <= n == sorted@.len(),
                    sv == tray_notes_view(sorted@),
                    older@.len() == k - MAX_FLAT,
                    forall|j: int|
                        0 <= j < older@.len() ==> #[trigger] older@[j]@ == note_item(
                            sv[MAX_FLAT + j],
                        ),
                decreases n - k,
            {
                older.push(note_item_of(&sorted[k]));
                k = k + 1;
            }
            let mut label = String::from_str("Older notes (");
            push_decimal(&mut label, (n - MAX_FLAT) as u64);
            label.append(")");
            assert(items_view(older@) =~= note_items(sv.skip(MAX_FLAT as int)));
            menu.push(MenuEntry::Submenu(label, older));
        }
        menu.push(MenuEntry::Separator);
        proof {
            let flat_notes = if n > MAX_FLAT {
                sv.take(MAX_FLAT as int)
            } else {
                sv
            };
            let section = notes_section(sv);
            let got = entries_view(menu@).skip(1);
            assert(got =~= section) by {
                assert(got.len() == section.len());
                assert forall|j: int| 0 <= j < got.len() implies got[j] == section[j] by {
                    if 1 <= j <= flat {
                        assert(menu@[j + 1] == after_flat[j + 1]);
                        assert(after_flat[start.len() + (j - 1)]@ == MenuEntryView::Item(
                            note_item(sv[j - 1]),
                        ));
                        assert(flat_notes[j - 1] == sv[j - 1]);
                    }
                }
            }
        }
    }
    let ghost before_tail = menu@;
    menu.push(plain_item("Show all", TrayAction::ShowNotes));
    menu.push(plain_item("Close all", TrayAction::HideNotes));
    menu.push(plain_item("Help", TrayAction::Help));
    menu.push(plain_item("Preferences", TrayAction::Preferences));
    menu.push(MenuEntry::Separator);
    menu.push(plain_item("Quit", TrayAction::Quit));
    proof {
        let spec = tray_menu_spec(tray_notes_view(snapshot@));
        assert(entries_view(menu@) =~= spec) by {
            let head = seq![plain("New note"@, TrayAction::NewNote)];
            let mid = notes_section(sv);
            assert(entries_view(before_tail) =~= head + mid) by {
                if n > 0 {
                    assert(entries_view(before_tail).skip(1) =~= mid);
                } else {
                    assert(mid =~= Seq::<MenuEntryView>::empty());
                }
            }
        }
    }
    menu
}


/// The notes of `s` modified at time `m`, in order.
pub open spec fn with_mtime(s: Seq<TrayNoteView>, m: u64) -> Seq<TrayNoteView>
    decreases s.len(),
{
    if s.len() == 0 {
        seq![]
    } else if s[0].mtime == m {
        seq![s[0]] + with_mtime(s.drop_first(), m)
    } else {
        with_mtime(s.drop_first(), m)
    }
}

proof fn lemma_with_key_by_age(s: Seq<TrayNoteView>, m: u64)
    ensures
        items(with_key(by_age(s), age_key(m))) == with_mtime(s, m),
    decreases s.len(),
{
    if s.len() > 0 {
        lemma_with_key_by_age(s.drop_first(), m);
        assert(by_age(s).drop_first() =~= by_age(s.drop_first()));
        assert(by_age(s)[0] == (age_key(s[0].mtime), s[0]));
        if s[0].mtime == m {
            assert(items(seq![(age_key(m), s[0])] + with_key(by_age(s.drop_first()), age_key(m)))
                =~= seq![s[0]] + items(with_key(by_age(s.drop_first()), age_key(m))));
        } else {
            assert(age_key(s[0].mtime) != age_key(m));
        }
    } else {
        assert(items(Seq::<(u64, TrayNoteView)>::empty()) =~= Seq::<TrayNoteView>::empty());
    }
}

proof fn lemma_items_count(q: Seq<(u64, TrayNoteView)>, n: TrayNoteView)
    requires
        forall|i: int| 0 <= i < q.len() ==> #[trigger] q[i].0 == age_key(q[i].1.mtime),
    ensures
        items(q).to_multiset().count(n) == q.to_multiset().count((age_key(n.mtime), n)),
    decreases q.len(),
{
    broadcast use vstd::seq_lib::group_to_multiset_ensures;

    if q.len() > 0 {
        let p = q.drop_last();
        assert forall|i: int| 0 <= i < p.len() implies #[trigger] p[i].0 == age_key(p[i].1.mtime) by {
            assert(p[i] == q[i]);
        }
        lemma_items_count(p, n);
        assert(q =~= p.push(q.last()));
        assert(items(q) =~= items(p).push(q.last().1));
        assert(q.last().0 == age_key(q.last().1.mtime));
    } else {
        assert(items(q) =~= Seq::<TrayNoteView>::empty());
    }
}

/// Law: the menu holds the notes of the snapshot, each as many times as
/// the snapshot does.
pub proof fn lemma_newest_first_is_permutation(s: Seq<TrayNoteView>)
    ensures
        newest_first(s).to_multiset() == s.to_multiset(),
{
    broadcast use vstd::seq_lib::group_to_multiset_ensures;

    let k = by_age(s);
    lemma_sorted_by_key(k);
    let sk = sorted_by_key(k);
    assert forall|i: int| 0 <= i < k.len() implies #[trigger] k[i].0 == age_key(k[i].1.mtime) by {}
    assert forall|i: int| 0 <= i < sk.len() implies #[trigger] sk[i].0 == age_key(sk[i].1.mtime) by {
        assert(sk.to_multiset().count(sk[i]) > 0);
        assert(k.to_multiset().count(sk[i]) > 0);
        assert(k.contains(sk[i]));
    }
    assert(items(k) =~= s);
    assert forall|n: TrayNoteView| newest_first(s).to_multiset().count(n) == s.to_multiset().count(n) by {
        lemma_items_count(sk, n);
        lemma_items_count(k, n);
    }
    assert(newest_first(s).to_multiset() =~= s.to_multiset());
}

/// Law: the menu order is newest first; it holds exactly the notes of
/// the snapshot, as many as there are; and notes of the same age keep the
/// order they had in the snapshot.
pub proof fn lemma_newest_first(s: Seq<TrayNoteView>, m: u64)
    ensures
        newest_first(s).len() == s.len(),
        forall|i: int, j: int|
            0 <= i <= j < s.len() ==> newest_first(s)[i].mtime >= newest_first(s)[j].mtime,
        forall|n: TrayNoteView| #[trigger] newest_first(s).contains(n) <==> s.contains(n),
        with_mtime(newest_first(s), m) == with_mtime(s, m),
{
    broadcast use vstd::seq_lib::group_to_multiset_ensures;

    let k = by_age(s);
    lemma_sorted_by_key(k);
    let sk = sorted_by_key(k);
    let r = newest_first(s);
    assert forall|i: int| 0 <= i < sk.len() implies #[trigger] sk[i].0 == age_key(sk[i].1.mtime)
        && s.contains(sk[i].1) by {
        assert(sk.to_multiset().count(sk[i]) > 0);
        assert(k.to_multiset().count(sk[i]) > 0);
        assert(k.contains(sk[i]));
        let j = choose|j: int| 0 <= j < k.len() && k[j] == sk[i];
        assert(s[j] == sk[i].1);
    }
    assert(keys_ascending(sk));
    assert forall|i: int, j: int| 0 <= i <= j < s.len() implies r[i].mtime >= r[j].mtime by {
        assert(sk[i].0 <= sk[j].0);
        assert(r[i] == sk[i].1 && r[j] == sk[j].1);
    }
    assert forall|n: TrayNoteView| #[trigger] r.contains(n) <==> s.contains(n) by {
        if r.contains(n) {
            let i = choose|i: int| 0 <= i < r.len() && r[i] == n;
            assert(sk[i].1 == n);
        }
        if s.contains(n) {
            let j = choose|j: int| 0 <= j < s.len() && s[j] == n;
            assert(k[j] == (age_key(n.mtime), n));
            assert(k.to_multiset().count(k[j]) > 0);
            assert(sk.to_multiset().count(k[j]) > 0);
            assert(sk.contains(k[j]));
            let i = choose|i: int| 0 <= i < sk.len() && sk[i] == k[j];
            assert(r[i] == n);
        }
    }
    lemma_sort_is_stable(k, age_key(m));
    lemma_with_key_by_age(s, m);
    lemma_with_key_by_age_sorted(sk, m);
}

proof fn lemma_with_key_by_age_sorted(sk: Seq<(u64, TrayNoteView)>, m: u64)
    requires
        forall|i: int| 0 <= i < sk.len() ==> #[trigger] sk[i].0 == age_key(sk[i].1.mtime),
    ensures
        items(with_key(sk, age_key(m))) == with_mtime(items(sk), m),
    decreases sk.len(),
{
    if sk.len() > 0 {
        assert forall|i: int| 0 <= i < sk.drop_first().len() implies #[trigger] sk.drop_first()[i].0
            == age_key(sk.drop_first()[i].1.mtime) by {
            assert(sk.drop_first()[i] == sk[i + 1]);
        }
        lemma_with_key_by_age_sorted(sk.drop_first(), m);
        assert(items(sk).drop_first() =~= items(sk.drop_first()));
        assert(items(sk)[0] == sk[0].1);
        assert(sk[0].0 == age_key(sk[0].1.mtime));
        if sk[0].1.mtime == m {
            assert(items(seq![sk[0]] + with_key(sk.drop_first(), age_key(m))) =~= seq![sk[0].1]
                + items(with_key(sk.drop_first(), age_key(m))));
        } else {
            assert(age_key(sk[0].1.mtime) != age_key(m));
        }
    } else {
        assert(items(Seq::<(u64, TrayNoteView)>::empty()) =~= Seq::<TrayNoteView>::empty());
    }
}


/// Law: the shape of the tray menu. It starts with `New note` and ends
/// with `Show all`, `Close all`, `Help`, `Preferences`, a separator and
/// `Quit`. With no notes nothing stands between them. With one to ten
/// notes, all of them stand flat, newest first, between two separators.
/// With more than ten, the ten newest stand flat and are followed by one
/// submenu `Older notes (n)`, `n` being the number of the others, which
/// holds those others in the same order.
pub proof fn lemma_tray_menu_layout(snapshot: Seq<TrayNoteView>)
    ensures
        ({
            let m = tray_menu_spec(snapshot);
            let sorted = newest_first(snapshot);
            let n = snapshot.len() as int;
            &&& m[0] == plain("New note"@, TrayAction::NewNote)
            &&& m.len() >= 7
            &&& m[m.len() - 6] == plain("Show all"@, TrayAction::ShowNotes)
            &&& m[m.len() - 5] == plain("Close all"@, TrayAction::HideNotes)
            &&& m[m.len() - 4] == plain("Help"@, TrayAction::Help)
            &&& m[m.len() - 3] == plain("Preferences"@, TrayAction::Preferences)
            &&& m[m.len() - 2] == MenuEntryView::Separator
            &&& m[m.len() - 1] == plain("Quit"@, TrayAction::Quit)
            &&& n == 0 ==> m.len() == 7
            &&& 0 < n <= 10 ==> {
                &&& m.len() == n + 9
                &&& m[1] == MenuEntryView::Separator
                &&& forall|j: int|
                    0 <= j < n ==> #[trigger] m[2 + j] == MenuEntryView::Item(note_item(sorted[j]))
                &&& m[n + 2] == MenuEntryView::Separator
            }
            &&& n > 10 ==> {
                &&& m.len() == 20
                &&& m[1] == MenuEntryView::Separator
                &&& forall|j: int|
                    0 <= j < 10 ==> #[trigger] m[2 + j] == MenuEntryView::Item(note_item(sorted[j]))
                &&& m[12] matches MenuEntryView::Submenu(label, older) && label == "Older notes ("@
                    + decimal((n - 10) as nat) + ")"@ && older.len() == n - 10 && forall|j: int|
                    0 <= j < n - 10 ==> #[trigger] older[j] == note_item(sorted[10 + j])
                &&& m[13] == MenuEntryView::Separator
            }
        }),
{
    lemma_newest_first(snapshot, 0);
    let m = tray_menu_spec(snapshot);
    let sorted = newest_first(snapshot);
    let n = snapshot.len() as int;
    let head = seq![plain("New note"@, TrayAction::NewNote)];
    let mid = notes_section(sorted);
    let tail = seq![
        plain("Show all"@, TrayAction::ShowNotes),
        plain("Close all"@, TrayAction::HideNotes),
        plain("Help"@, TrayAction::Help),
        plain("Preferences"@, TrayAction::Preferences),
        MenuEntryView::Separator,
        plain("Quit"@, TrayAction::Quit),
    ];
    assert(m == head + mid + tail);
    if n == 0 {
        assert(mid.len() == 0);
    } else {
        let flat = if n > 10 {
            sorted.take(10)
        } else {
            sorted
        };
        let items = note_items(flat).map_values(|i: MenuItemView| MenuEntryView::Item(i));
        assert forall|j: int| 0 <= j < flat.len() implies #[trigger] m[2 + j] == MenuEntryView::Item(
            note_item(sorted[j]),
        ) by {
            assert(m[2 + j] == mid[1 + j]);
            assert(mid[1 + j] == items[j]);
        }
        if n > 10 {
            assert(m[12] == mid[11]);
            assert(sorted.skip(10).len() == n - 10);
            let older = note_items(sorted.skip(10));
            assert forall|j: int| 0 <= j < n - 10 implies #[trigger] older[j] == note_item(
                sorted[10 + j],
            ) by {
                assert(sorted.skip(10)[j] == sorted[10 + j]);
            }
        }
    }
}

/// The position of the first note with this id.
pub open spec fn first_with_id(s: Seq<TrayNoteView>, id: u64) -> Option<int>
    decreases s.len(),
{
    if s.len() == 0 {
        None
    } else if s[0].id == id {
        Some(0)
    } else {
        match first_with_id(s.drop_first(), id) {
            Some(i) => Some(i + 1),
            None => None,
        }
    }
}

/// An open window's entry replaces the first entry with its id, or comes
/// last when there is none: open buffers may hold unsaved edits or titles.
pub open spec fn apply_window(snap: Seq<TrayNoteView>, w: TrayNoteView) -> Seq<TrayNoteView> {
    match first_with_id(snap, w.id) {
        Some(i) => snap.update(i, w),
        None => snap.push(w),
    }
}

pub open spec fn apply_windows(snap: Seq<TrayNoteView>, live: Seq<TrayNoteView>) -> Seq<
    TrayNoteView,
>
    decreases live.len(),
{
    if live.len() == 0 {
        snap
    } else {
        apply_window(apply_windows(snap, live.drop_last()), live.last())
    }
}

pub open spec fn hidden(n: TrayNoteView) -> TrayNoteView {
    TrayNoteView { visible: false, ..n }
}

/// The tray menu's snapshot: every note on disk (not shown on screen),
/// with the open windows' entries overriding the disk entries of their
/// notes, and windows whose note is not on disk yet appended.
pub open spec fn tray_snapshot_spec(disk: Seq<TrayNoteView>, live: Seq<TrayNoteView>) -> Seq<
    TrayNoteView,
> {
    apply_windows(disk.map_values(|n: TrayNoteView| hidden(n)), live)
}

proof fn lemma_first_with_id(s: Seq<TrayNoteView>, id: u64)
    ensures
        first_with_id(s, id) matches Some(i) ==> 0 <= i < s.len() && s[i].id == id && forall|j: int|
            0 <= j < i ==> #[trigger] s[j].id != id,
        first_with_id(s, id) is None ==> forall|j: int| 0 <= j < s.len() ==> #[trigger] s[j].id != id,
    decreases s.len(),
{
    if s.len() > 0 && s[0].id != id {
        let t = s.drop_first();
        lemma_first_with_id(t, id);
        match first_with_id(t, id) {
            Some(i) => {
                assert(s[i + 1] == t[i]);
                assert forall|j: int| 0 <= j < i + 1 implies #[trigger] s[j].id != id by {
                    if j > 0 {
                        assert(s[j] == t[j - 1]);
                    }
                }
            },
            None => {
                assert forall|j: int| 0 <= j < s.len() implies #[trigger] s[j].id != id by {
                    if j > 0 {
                        assert(s[j] == t[j - 1]);
                    }
                }
            },
        }
    }
}

/// Builds the tray menu's snapshot from the notes on disk and the open
/// windows' entries (see `tray_snapshot_spec`).
pub fn tray_snapshot(disk: Vec<TrayNote>, live: Vec<TrayNote>) -> (snap: Vec<TrayNote>)
    ensures
        tray_notes_view(snap@) == tray_snapshot_spec(tray_notes_view(disk@), tray_notes_view(live@)),
{
    let ghost dv = tray_notes_view(disk@);
    let ghost lv = tray_notes_view(live@);
    let mut snap: Vec<TrayNote> = Vec::new();
    let mut rest = disk;
    let ghost orig = rest@;
    let mut i: usize = 0;
    let total = rest.len();
    while rest.len() > 0
        invariant
            total == orig.len(),
            dv == tray_notes_view(orig),
            i + rest@.len() == orig.len(),
            rest@ =~= orig.skip(i as int),
            tray_notes_view(snap@) =~= dv.map_values(|n: TrayNoteView| hidden(n)).take(i as int),
        decreases rest@.len(),
    {
        let n = rest.remove(0);
        assert(orig[i as int] == n);
        assert(dv[i as int] == n@);
        let ghost before = tray_notes_view(snap@);
        let h = TrayNote { id: n.id, title: n.title, visible: false, mtime: n.mtime };
        assert(h@ == hidden(dv[i as int]));
        snap.push(h);
        assert(tray_notes_view(snap@) =~= before.push(h@));
        assert(dv.map_values(|n: TrayNoteView| hidden(n)).take(i + 1) =~= dv.map_values(
            |n: TrayNoteView| hidden(n),
        ).take(i as int).push(hidden(dv[i as int])));
        i = i + 1;
    }
    assert(dv.map_values(|n: TrayNoteView| hidden(n)).take(i as int) =~= dv.map_values(
        |n: TrayNoteView| hidden(n),
    ));
    let mut rest = live;
    let ghost lorig = rest@;
    let mut k: usize = 0;
    let ltotal = rest.len();
    assert(lv.take(0) =~= Seq::<TrayNoteView>::empty());
    while rest.len() > 0
        invariant
            ltotal == lorig.len(),
            lv == tray_notes_view(lorig),
            k + rest@.len() == lorig.len(),
            rest@ =~= lorig.skip(k as int),
            tray_notes_view(snap@) == apply_windows(
                dv.map_values(|n: TrayNoteView| hidden(n)),
                lv.take(k as int),
            ),
        decreases rest@.len(),
    {
        let w = rest.remove(0);
        assert(lorig[k as int] == w);
        assert(lv.take(k + 1).drop_last() =~= lv.take(k as int));
        assert(lv.take(k + 1).last() == w@);
        let ghost before = tray_notes_view(snap@);
        proof {
            lemma_first_with_id(before, w.id);
        }
        let mut j: usize = 0;
        while j < snap.len() && snap[j].id != w.id
            invariant
                j <= snap@.len(),
                before == tray_notes_view(snap@),
                forall|p: int| 0 <= p < j ==> #[trigger] snap@[p].id != w.id,
            decreases snap@.len() - j,
        {
            j = j + 1;
        }
        if j < snap.len() {
            assert(before[j as int].id == w.id);
            assert(first_with_id(before, w.id) == Some(j as int)) by {
                if first_with_id(before, w.id) != Some(j as int) {
                    let f = first_with_id(before, w.id);
                    assert(f is Some);
                    let fi = f->0;
                    if fi < j {
                        assert(snap@[fi].id != w.id);
                    } else {
                        assert(before[j as int].id == w.id);
                    }
                }
            }
            snap.set(j, w);
            assert(tray_notes_view(snap@) =~= before.update(j as int, w@));
        } else {
            assert(first_with_id(before, w.id) is None) by {
                if first_with_id(before, w.id) is Some {
                    let fi = first_with_id(before, w.id)->0;
                    assert(snap@[fi].id != w.id);
                }
            }
            snap.push(w);
            assert(tray_notes_view(snap@) =~= before.push(w@));
        }
        k = k + 1;
    }
    assert(lv.take(k as int) =~= lv);
    snap
}

/// Law: the snapshot starts with the notes on disk, each at its place and
/// with its id, and it lists every open window's entry (ids of open
/// windows being distinct).
pub proof fn lemma_snapshot_covers(disk: Seq<TrayNoteView>, live: Seq<TrayNoteView>)
    requires
        forall|a: int, b: int|
            0 <= a < live.len() && 0 <= b < live.len() && a != b ==> live[a].id != live[b].id,
    ensures
        tray_snapshot_spec(disk, live).len() >= disk.len(),
        forall|i: int| 0 <= i < disk.len() ==> #[trigger] tray_snapshot_spec(disk, live)[i].id == disk[i].id,
        forall|j: int| 0 <= j < live.len() ==> tray_snapshot_spec(disk, live).contains(#[trigger] live[j]),
    decreases live.len(),
{
    let base = disk.map_values(|n: TrayNoteView| hidden(n));
    lemma_apply_windows(base, live);
}

proof fn lemma_apply_windows(base: Seq<TrayNoteView>, live: Seq<TrayNoteView>)
    requires
        forall|a: int, b: int|
            0 <= a < live.len() && 0 <= b < live.len() && a != b ==> live[a].id != live[b].id,
    ensures
        apply_windows(base, live).len() >= base.len(),
        forall|i: int| 0 <= i < base.len() ==> #[trigger] apply_windows(base, live)[i].id == base[i].id,
        forall|j: int| 0 <= j < live.len() ==> apply_windows(base, live).contains(#[trigger] live[j]),
    decreases live.len(),
{
    if live.len() > 0 {
        let prev = live.drop_last();
        let w = live.last();
        lemma_apply_windows(base, prev);
        let s = apply_windows(base, prev);
        let r = apply_window(s, w);
        lemma_first_with_id(s, w.id);
        assert(r[r.len() - 1] == w || exists|i: int| 0 <= i < r.len() && r[i] == w) by {
            match first_with_id(s, w.id) {
                Some(i) => {
                    assert(r[i] == w);
                },
                None => {},
            }
        }
        assert(r.contains(w));
        assert forall|j: int| 0 <= j < live.len() implies r.contains(#[trigger] live[j]) by {
            if j < live.len() - 1 {
                assert(prev[j] == live[j]);
                assert(s.contains(prev[j]));
                let p = choose|p: int| 0 <= p < s.len() && s[p] == live[j];
                assert(live[j].id != w.id);
                match first_with_id(s, w.id) {
                    Some(i) => {
                        assert(i != p);
                        assert(r[p] == live[j]);
                    },
                    None => {
                        assert(r[p] == live[j]);
                    },
                }
            }
        }
        assert forall|i: int| 0 <= i < base.len() implies #[trigger] r[i].id == base[i].id by {
            match first_with_id(s, w.id) {
                Some(fi) => {
                    if fi == i {
                        assert(r[i] == w);
                    } else {
                        assert(r[i] == s[i]);
                    }
                },
                None => {
                    assert(r[i] == s[i]);
                },
            }
        }
    }
}

} // verus!
