//! Plain-file persistence: one UTF-8 `<id>.txt` per note in the `notes`
//! directory of the data directory, and a `state.toml` beside it for
//! window sizes. The library names the files, reads notes back from a
//! directory listing, picks fresh ids and plans the atomic writes; the
//! caller does the file system calls.

use vstd::prelude::*;
use vstd::utf8::{decode_utf8, encode_utf8, valid_utf8};
use crate::atomic::{temp_path, AtomicWrite, WriteStage};
use crate::paths::{join_path, path_join};
use crate::sort::{
    into_items, items, keys_ascending, lemma_sort_map, lemma_sorted_by_key, map_items,
    sorted_by_key, stable_sort_by_key,
};
use crate::text::{chars_of, decimal, lemma_parse_decimal, parse_decimal_u64, parse_u64, push_decimal};

verus! {

broadcast use vstd::utf8::group_utf8_lib;

/// One note on disk.
#[derive(Debug, Clone, PartialEq, Eq)]
pub struct NoteFile {
    pub id: u64,
    pub text: String,
}

/// A note as the specifications see it.
pub struct NoteFileView {
    pub id: u64,
    pub text: Seq<char>,
}

impl View for NoteFile {
    type V = NoteFileView;

    open spec fn view(&self) -> NoteFileView {
        NoteFileView { id: self.id, text: self.text@ }
    }
}

/// One entry of the notes directory: its file name and, when the file
/// was read, its bytes (`None` when reading it failed).
#[derive(Debug, Clone, PartialEq, Eq)]
pub struct DirEntry {
    pub name: String,
    pub contents: Option<Vec<u8>>,
}

pub struct DirEntryView {
    pub name: Seq<char>,
    pub contents: Option<Seq<u8>>,
}

impl View for DirEntry {
    type V = DirEntryView;

    open spec fn view(&self) -> DirEntryView {
        DirEntryView {
            name: self.name@,
            contents: match self.contents {
                Some(b) => Some(b@),
                None => None,
            },
        }
    }
}

pub open spec fn txt_extension() -> Seq<char> {
    seq!['.', 't', 'x', 't']
}

/// The file name of note `id`: `<id>.txt`.
pub open spec fn note_file_name(id: u64) -> Seq<char> {
    decimal(id as nat) + txt_extension()
}

/// The note id that a file name stands for: the name ends in `.txt` after
/// a non-empty stem, and the stem reads as a `u64` (`u64::from_str`).
pub open spec fn note_id_of_name(name: Seq<char>) -> Option<u64> {
    if name.len() > 4 && name.skip(name.len() - 4) == txt_extension() {
        parse_u64(name.take(name.len() - 4))
    } else {
        None
    }
}

/// What `String::from_utf8_lossy` makes of `bytes`.
pub uninterp spec fn utf8_lossy(bytes: Seq<u8>) -> Seq<char>;

/// The text of a note file: its bytes decoded as UTF-8, with invalid
/// sequences replaced by U+FFFD.
pub open spec fn decode_note(bytes: Seq<u8>) -> Seq<char> {
    if valid_utf8(bytes) {
        decode_utf8(bytes)
    } else {
        utf8_lossy(bytes)
    }
}

/// `String::from_utf8_lossy`, made owned. Its documentation promises that
/// valid UTF-8 comes back as the text it encodes; what replaces invalid
/// sequences is only named (`utf8_lossy`), not stated.
#[verifier::external_body]
fn decode_lossy(bytes: &[u8]) -> (s: String)
    ensures
        valid_utf8(bytes@) ==> s@ == decode_utf8(bytes@),
        !valid_utf8(bytes@) ==> s@ == utf8_lossy(bytes@),
{
    String::from_utf8_lossy(bytes).into_owned()
}

/// The note an entry of the notes directory holds, if it holds one.
pub open spec fn entry_note(e: DirEntryView) -> Option<NoteFileView> {
    match note_id_of_name(e.name) {
        Some(id) => match e.contents {
            Some(b) => Some(NoteFileView { id, text: decode_note(b) }),
            None => None,
        },
        None => None,
    }
}

/// The notes of a listing, in listing order.
pub open spec fn notes_in_listing(l: Seq<DirEntryView>) -> Seq<NoteFileView>
    decreases l.len(),
{
    if l.len() == 0 {
        seq![]
    } else {
        match entry_note(l[0]) {
            Some(n) => seq![n] + notes_in_listing(l.drop_first()),
            None => notes_in_listing(l.drop_first()),
        }
    }
}

pub open spec fn keyed(s: Seq<NoteFileView>) -> Seq<(u64, NoteFileView)> {
    s.map_values(|n: NoteFileView| (n.id, n))
}

/// The notes of a listing ordered by id; notes with the same id keep
/// their listing order.
pub open spec fn loaded_notes(l: Seq<DirEntryView>) -> Seq<NoteFileView> {
    items(sorted_by_key(keyed(notes_in_listing(l))))
}

pub open spec fn listing_view(l: Seq<DirEntry>) -> Seq<DirEntryView> {
    l.map_values(|e: DirEntry| e@)
}

pub open spec fn notes_view(n: Seq<NoteFile>) -> Seq<NoteFileView> {
    n.map_values(|f: NoteFile| f@)
}

/// The greatest id among `notes`, or 0 when there is none.
pub open spec fn max_id(notes: Seq<NoteFileView>) -> nat
    decreases notes.len(),
{
    if notes.len() == 0 {
        0
    } else {
        let m = max_id(notes.drop_last());
        if notes.last().id > m {
            notes.last().id as nat
        } else {
            m
        }
    }
}

/// The id of the file name `name` when it names a note (`<u64>.txt`).
pub fn note_id_from_file_name(name: &str) -> (r: Option<u64>)
    ensures
        r == note_id_of_name(name@),
{
    let v = chars_of(name);
    let n = v.len();
    if n <= 4 {
        return None;
    }
    if !(v[n - 4] == '.' && v[n - 3] == 't' && v[n - 2] == 'x' && v[n - 1] == 't') {
        assert(v@.skip(n - 4)[0] == v@[n - 4]);
        assert(v@.skip(n - 4)[1] == v@[n - 3]);
        assert(v@.skip(n - 4)[2] == v@[n - 2]);
        assert(v@.skip(n - 4)[3] == v@[n - 1]);
        assert(v@.skip(n - 4) != txt_extension());
        return None;
    }
    assert(v@.skip(n - 4) =~= txt_extension());
    let stem = v.as_slice().split_at(n - 4).0;
    assert(stem@ =~= v@.take(n - 4));
    parse_decimal_u64(stem)
}

/// The notes of a directory listing, ordered by id. Entries whose name is
/// not `<u64>.txt`, and entries that could not be read, are skipped; bytes
/// that are not UTF-8 are read lossily.
fn notes_of_listing(listing: &Vec<DirEntry>) -> (notes: Vec<NoteFile>)
    ensures
        notes_view(notes@) == loaded_notes(listing_view(listing@)),
{
    let ghost l = listing_view(listing@);
    let mut keyed_notes: Vec<(u64, NoteFile)> = Vec::new();
    let n = listing.len();
    let mut i: usize = 0;
    assert(l.skip(0) =~= l);
    while i < n
        invariant
            n == listing@.len(),
            l == listing_view(listing@),
            i <= n,
            notes_in_listing(l) == items(map_items(keyed_notes@, |f: NoteFile| f@))
                + notes_in_listing(l.skip(i as int)),
            forall|j: int| 0 <= j < keyed_notes@.len() ==> #[trigger] keyed_notes@[j].0
                == keyed_notes@[j].1.id,
        decreases n - i,
    {
        let entry = &listing[i];
        assert(l.skip(i as int)[0] == entry@);
        assert(l.skip(i as int).drop_first() =~= l.skip(i + 1));
        let ghost before = keyed_notes@;
        match note_id_from_file_name(entry.name.as_str()) {
            Some(id) => match &entry.contents {
                Some(bytes) => {
                    let text = decode_lossy(bytes.as_slice());
                    keyed_notes.push((id, NoteFile { id, text }));
                    assert(items(map_items(keyed_notes@, |f: NoteFile| f@)) =~= items(
                        map_items(before, |f: NoteFile| f@),
                    ).push(NoteFileView { id, text: text@ }));
                },
                None => {},
            },
            None => {},
        }
        i = i + 1;
    }
    assert(l.skip(n as int).len() == 0);
    let ghost kn = keyed_notes@;
    assert(map_items(kn, |f: NoteFile| f@) =~= keyed(notes_in_listing(l))) by {
        assert(notes_in_listing(l) =~= items(map_items(kn, |f: NoteFile| f@)));
        let a = map_items(kn, |f: NoteFile| f@);
        let b = keyed(notes_in_listing(l));
        assert forall|j: int| 0 <= j < a.len() implies a[j] == b[j] by {
            assert(kn[j].0 == kn[j].1.id);
        }
    }
    let sorted = stable_sort_by_key(keyed_notes);
    proof {
        lemma_sort_map(kn, |f: NoteFile| f@);
    }
    let notes = into_items(sorted);
    let ghost s = sorted_by_key(kn);
    assert(notes_view(notes@) =~= items(map_items(s, |f: NoteFile| f@)));
    notes
}

/// The data directory: `notes/` with one file per note, and `state.toml`.
pub struct Store {
    base: String,
}

impl View for Store {
    type V = Seq<char>;

    closed spec fn view(&self) -> Seq<char> {
        self.base@
    }
}

/// `<base>/notes`.
pub open spec fn notes_dir_of(base: Seq<char>) -> Seq<char> {
    path_join(base, "notes"@)
}

/// `<base>/notes/<id>.txt`.
pub open spec fn note_path_of(base: Seq<char>, id: u64) -> Seq<char> {
    path_join(notes_dir_of(base), note_file_name(id))
}

/// A planned note save: create `dir` (and its parents), then write `data`
/// to `write.target` atomically through `write`.
pub struct NoteSave {
    pub dir: String,
    pub write: AtomicWrite,
    pub data: Vec<u8>,
}

impl Store {
    pub fn new(base: String) -> (s: Store)
        ensures
            s@ == base@,
    {
        Store { base }
    }

    /// The data directory itself.
    pub fn base(&self) -> (b: &str)
        ensures
            b@ == self@,
    {
        self.base.as_str()
    }

    /// The directory that holds the note files.
    pub fn notes_dir(&self) -> (p: String)
        ensures
            p@ == notes_dir_of(self@),
    {
        join_path(self.base.as_str(), "notes")
    }

    /// The file name of note `id`.
    pub fn note_file_name(id: u64) -> (name: String)
        ensures
            name@ == note_file_name(id),
    {
        let mut name = String::new();
        push_decimal(&mut name, id);
        name.append(".txt");
        proof {
            reveal_strlit(".txt");
        }
        name
    }

    /// The file of note `id`.
    pub fn note_path(&self, id: u64) -> (p: String)
        ensures
            p@ == note_path_of(self@, id),
    {
        let dir = self.notes_dir();
        let name = Store::note_file_name(id);
        join_path(dir.as_str(), name.as_str())
    }

    /// The file that keeps the window sizes.
    pub fn state_path(&self) -> (p: String)
        ensures
            p@ == path_join(self@, "state.toml"@),
    {
        join_path(self.base.as_str(), "state.toml")
    }

    /// All notes of a listing of the notes directory, ordered by id.
    pub fn load_notes(&self, listing: &Vec<DirEntry>) -> (notes: Vec<NoteFile>)
        ensures
            notes_view(notes@) == loaded_notes(listing_view(listing@)),
    {
        notes_of_listing(listing)
    }

    /// Highest existing id + 1, so ids never collide even after manual
    /// tampering with the notes directory; 1 when there are no notes or
    /// when the directory could not be listed (`None`).
    pub fn next_id(&self, loaded: Option<&Vec<NoteFile>>) -> (id: u64)
        requires
            loaded matches Some(notes) ==> forall|i: int|
                0 <= i < notes@.len() ==> #[trigger] notes@[i].id < u64::MAX,
        ensures
            id == match loaded {
                Some(notes) => max_id(notes_view(notes@)) + 1,
                None => 1,
            },
            loaded matches Some(notes) ==> forall|i: int|
                0 <= i < notes@.len() ==> #[trigger] notes@[i].id < id,
    {
        match loaded {
            None => 1,
            Some(notes) => {
                let mut max: u64 = 0;
                let mut i: usize = 0;
                while i < notes.len()
                    invariant
                        i <= notes@.len(),
                        forall|j: int| 0 <= j < notes@.len() ==> #[trigger] notes@[j].id < u64::MAX,
                        max == max_id(notes_view(notes@).take(i as int)),
                        forall|j: int| 0 <= j < i ==> #[trigger] notes@[j].id <= max,
                        max < u64::MAX,
                    decreases notes@.len() - i,
                {
                    assert(notes_view(notes@).take(i + 1).drop_last() =~= notes_view(notes@).take(
                        i as int,
                    ));
                    if notes[i].id > max {
                        max = notes[i].id;
                    }
                    i = i + 1;
                }
                assert(notes_view(notes@).take(i as int) =~= notes_view(notes@));
                max + 1
            },
        }
    }

    /// Plans saving `text` as note `id`: the notes directory to create and
    /// the atomic write of the text's UTF-8 bytes to the note's file.
    pub fn save_note(&self, id: u64, text: &str) -> (s: NoteSave)
        ensures
            s.dir@ == notes_dir_of(self@),
            s.write.dir@ == notes_dir_of(self@),
            s.write.target@ == note_path_of(self@, id),
            s.write.temp@ == temp_path(note_path_of(self@, id)),
            s.write.stage == WriteStage::Start,
            s.write.outcome is None,
            s.data@ == encode_utf8(text@),
    {
        let dir = self.notes_dir();
        let target = self.note_path(id);
        let write = AtomicWrite::new(self.notes_dir(), target);
        let data = text.as_bytes_vec();
        NoteSave { dir, write, data }
    }

    /// The file to remove to delete note `id`; a file that is already
    /// gone counts as deleted.
    pub fn delete_note(&self, id: u64) -> (p: String)
        ensures
            p@ == note_path_of(self@, id),
    {
        self.note_path(id)
    }
}

/// A note file read back from what `Store::save_note` wrote.
pub open spec fn saved_entry(id: u64, text: Seq<char>) -> DirEntryView {
    DirEntryView { name: note_file_name(id), contents: Some(encode_utf8(text)) }
}

/// Law: the file name of note `id` names note `id`.
pub proof fn lemma_note_file_name_roundtrip(id: u64)
    ensures
        note_id_of_name(note_file_name(id)) == Some(id),
{
    lemma_parse_decimal(id);
    let name = note_file_name(id);
    assert(name.skip(name.len() - 4) =~= txt_extension());
    assert(name.take(name.len() - 4) =~= decimal(id as nat));
}

proof fn lemma_saved_entry_note(id: u64, text: Seq<char>)
    ensures
        entry_note(saved_entry(id, text)) == Some(NoteFileView { id, text }),
{
    lemma_note_file_name_roundtrip(id);
    lemma_parse_decimal(id);
    let name = note_file_name(id);
    let d = decimal(id as nat);
    assert(name.len() > 4);
    assert(name.skip(name.len() - 4) =~= txt_extension());
    assert(name.take(name.len() - 4) =~= d);
}

/// Law: what `Store::save_note` writes reads back as the same note: a
/// listing that holds just the saved file loads as exactly that note.
pub proof fn lemma_saved_note_loads_back(id: u64, text: Seq<char>)
    ensures
        loaded_notes(seq![saved_entry(id, text)]) == seq![NoteFileView { id, text }],
{
    lemma_saved_entry_note(id, text);
    let l = seq![saved_entry(id, text)];
    assert(l.drop_first() =~= Seq::<DirEntryView>::empty());
    assert(notes_in_listing(l.drop_first()) =~= Seq::<NoteFileView>::empty());
    assert(l[0] == saved_entry(id, text));
    assert(notes_in_listing(l) =~= seq![NoteFileView { id, text }]);
    let k = keyed(seq![NoteFileView { id, text }]);
    assert(k =~= seq![(id, NoteFileView { id, text })]);
    assert(k.drop_first() =~= Seq::<(u64, NoteFileView)>::empty());
    assert(sorted_by_key(k.drop_first()) =~= Seq::<(u64, NoteFileView)>::empty());
    assert(sorted_by_key(k) =~= seq![(id, NoteFileView { id, text })]);
    assert(items(sorted_by_key(k)) =~= seq![NoteFileView { id, text }]);
}

proof fn lemma_listing_contains(l: Seq<DirEntryView>, e: DirEntryView, n: NoteFileView)
    requires
        l.contains(e),
        entry_note(e) == Some(n),
    ensures
        notes_in_listing(l).contains(n),
    decreases l.len(),
{
    if l[0] == e {
        assert(notes_in_listing(l)[0] == n);
    } else {
        let k = choose|k: int| 0 <= k < l.len() && l[k] == e;
        assert(l.drop_first()[k - 1] == e);
        lemma_listing_contains(l.drop_first(), e, n);
        let rest = notes_in_listing(l.drop_first());
        let j = choose|j: int| 0 <= j < rest.len() && rest[j] == n;
        match entry_note(l[0]) {
            Some(m) => {
                assert(notes_in_listing(l)[j + 1] == n);
            },
            None => {},
        }
    }
}

/// Law: whatever else the notes directory holds, once `Store::save_note`
/// has written note `id` with `text`, loading the directory yields that
/// note.
pub proof fn lemma_saved_note_is_loaded(l: Seq<DirEntryView>, id: u64, text: Seq<char>)
    requires
        l.contains(saved_entry(id, text)),
    ensures
        loaded_notes(l).contains(NoteFileView { id, text }),
{
    broadcast use vstd::seq_lib::group_to_multiset_ensures;

    let n = NoteFileView { id, text };
    lemma_saved_entry_note(id, text);
    lemma_listing_contains(l, saved_entry(id, text), n);
    let ns = notes_in_listing(l);
    let k = keyed(ns);
    let j = choose|j: int| 0 <= j < ns.len() && ns[j] == n;
    assert(k[j] == (id, n));
    assert(k.to_multiset().count((id, n)) > 0);
    lemma_sorted_by_key(k);
    let s = sorted_by_key(k);
    assert(s.to_multiset().count((id, n)) > 0);
    assert(s.contains((id, n)));
    let i = choose|i: int| 0 <= i < s.len() && s[i] == (id, n);
    assert(items(s)[i] == n);
}

/// Law: the loaded notes come ordered by id.
pub proof fn lemma_loaded_notes_by_id(l: Seq<DirEntryView>)
    ensures
        forall|i: int, j: int|
            0 <= i <= j < loaded_notes(l).len() ==> loaded_notes(l)[i].id <= loaded_notes(l)[j].id,
{
    broadcast use vstd::seq_lib::group_to_multiset_ensures;

    let k = keyed(notes_in_listing(l));
    lemma_sorted_by_key(k);
    let s = sorted_by_key(k);
    assert forall|i: int| 0 <= i < s.len() implies #[trigger] s[i].0 == s[i].1.id by {
        assert(s.to_multiset().count(s[i]) > 0);
        assert(k.to_multiset().count(s[i]) > 0);
        assert(k.contains(s[i]));
    }
    assert(keys_ascending(s));
}

proof fn lemma_skip_entry(l: Seq<DirEntryView>, e: DirEntryView)
    requires
        entry_note(e) is None,
    ensures
        notes_in_listing(l.push(e)) == notes_in_listing(l),
    decreases l.len(),
{
    if l.len() == 0 {
        assert(l.push(e).drop_first() =~= Seq::<DirEntryView>::empty());
        assert(l.push(e)[0] == e);
        assert(notes_in_listing(l.push(e).drop_first()) =~= Seq::<NoteFileView>::empty());
    } else {
        lemma_skip_entry(l.drop_first(), e);
        assert(l.push(e).drop_first() =~= l.drop_first().push(e));
        assert(l.push(e)[0] == l[0]);
    }
}

/// Law: files that are not notes (not `<u64>.txt`), and notes that could
/// not be read, change nothing about what loads.
pub proof fn lemma_non_notes_are_skipped(l: Seq<DirEntryView>, e: DirEntryView)
    requires
        note_id_of_name(e.name) is None || e.contents is None,
    ensures
        loaded_notes(l.push(e)) == loaded_notes(l),
{
    lemma_skip_entry(l, e);
}

} // verus!
