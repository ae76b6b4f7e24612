//! The application's bookkeeping: which note windows are open and shown,
//! the remembered window sizes, and the next note id. Every decision of
//! the application (which id a new note gets, what a tray click shows,
//! when sizes are saved, when the app quits) is taken here; the windows
//! themselves live in the GTK front end.

use vstd::prelude::*;
use crate::sizes::SizeTable;
use crate::table::IdTable;

verus! {

/// The size of a note window with no remembered size.
pub const DEFAULT_SIZE: (i32, i32) = (260, 220);

/// An id is taken when an open window holds it or a note file uses it.
pub open spec fn id_taken(windows: Map<u64, bool>, disk_ids: Seq<u64>, id: u64) -> bool {
    windows.contains_key(id) || disk_ids.contains(id)
}

pub open spec fn max_u64(a: u64, b: u64) -> u64 {
    if a >= b {
        a
    } else {
        b
    }
}

/// What showing a note from the tray takes.
#[derive(Debug, Clone, Copy, PartialEq, Eq)]
pub enum ShowNote {
    /// Its window is open: present it.
    Present,
    /// It has no window: load it from disk and open it at this size.
    Load(i32, i32),
}

/// The state of a running zPad.
pub struct Session {
    windows: IdTable<bool>,
    sizes: SizeTable,
    next_id: u64,
    has_tray: bool,
    started: bool,
}

impl Session {
    /// The open windows, each with whether it is shown.
    pub closed spec fn windows(&self) -> Map<u64, bool> {
        self.windows@
    }

    /// The remembered window sizes.
    pub closed spec fn sizes(&self) -> Map<u64, (i32, i32)> {
        self.sizes@
    }

    /// No id below this one is given out again in this session.
    pub closed spec fn next_id(&self) -> u64 {
        self.next_id
    }

    pub closed spec fn has_tray(&self) -> bool {
        self.has_tray
    }

    pub closed spec fn started(&self) -> bool {
        self.started
    }

    /// A session with no window open. Sizes of notes that no longer exist
    /// on disk (deleted externally, e.g. by a sync tool) are dropped, so
    /// the state file cannot grow stale; ids start at `next_id` (highest
    /// id on disk + 1).
    pub fn new(sizes: SizeTable, disk_ids: &Vec<u64>, next_id: u64) -> (s: Session)
        ensures
            s.windows() == Map::<u64, bool>::empty(),
            s.sizes() == sizes@.restrict(disk_ids@.to_set()),
            s.next_id() == next_id,
            !s.has_tray(),
            !s.started(),
    {
        Session {
            windows: IdTable::new(),
            sizes: sizes.restricted_to(disk_ids),
            next_id,
            has_tray: false,
            started: false,
        }
    }

    /// The id the next new note is considered from.
    pub fn next_note_id(&self) -> (id: u64)
        ensures
            id == self.next_id(),
    {
        self.next_id
    }

    /// The tray icon is up: closing the last note no longer quits.
    pub fn set_tray(&mut self)
        ensures
            final(self).has_tray(),
            final(self).windows() == old(self).windows(),
            final(self).sizes() == old(self).sizes(),
            final(self).next_id() == old(self).next_id(),
            final(self).started() == old(self).started(),
    {
        self.has_tray = true;
    }

    /// Records the first activation.
    pub fn on_activated(&mut self)
        ensures
            final(self).started(),
            final(self).windows() == old(self).windows(),
            final(self).sizes() == old(self).sizes(),
            final(self).next_id() == old(self).next_id(),
            final(self).has_tray() == old(self).has_tray(),
    {
        self.started = true;
    }

    fn contains_id(ids: &Vec<u64>, id: u64) -> (r: bool)
        ensures
            r == ids@.contains(id),
    {
        let mut i: usize = 0;
        while i < ids.len()
            invariant
                i <= ids@.len(),
                forall|j: int| 0 <= j < i ==> #[trigger] ids@[j] != id,
            decreases ids@.len() - i,
        {
            if ids[i] == id {
                return true;
            }
            i = i + 1;
        }
        false
    }

    /// The id of a new note: the first id, from the larger of the session's
    /// next id and the next id on disk (`disk_next_id`) on, that no open
    /// window holds and no note file uses (`disk_ids`) — files can appear
    /// between launches, and reusing one would make the first autosave
    /// silently overwrite that note. Ids given out only grow.
    pub fn reserve_note_id(&mut self, disk_next_id: u64, disk_ids: &Vec<u64>) -> (id: u64)
        requires
            exists|k: u64|
                max_u64(old(self).next_id(), disk_next_id) <= k < u64::MAX && !#[trigger] id_taken(
                    old(self).windows(),
                    disk_ids@,
                    k,
                ),
        ensures
            max_u64(old(self).next_id(), disk_next_id) <= id,
            !id_taken(old(self).windows(), disk_ids@, id),
            forall|k: u64|
                max_u64(old(self).next_id(), disk_next_id) <= k < id ==> #[trigger] id_taken(
                    old(self).windows(),
                    disk_ids@,
                    k,
                ),
            final(self).next_id() == id + 1,
            final(self).windows() == old(self).windows(),
            final(self).sizes() == old(self).sizes(),
            final(self).has_tray() == old(self).has_tray(),
            final(self).started() == old(self).started(),
    {
        let start = if self.next_id >= disk_next_id {
            self.next_id
        } else {
            disk_next_id
        };
        let ghost free = choose|k: u64|
            start <= k < u64::MAX && !#[trigger] id_taken(self.windows@, disk_ids@, k);
        let mut id = start;
        while self.windows.get(id).is_some() || Session::contains_id(disk_ids, id)
            invariant
                start <= id <= free < u64::MAX,
                !id_taken(self.windows@, disk_ids@, free),
                forall|k: u64| start <= k < id ==> #[trigger] id_taken(self.windows@, disk_ids@, k),
            decreases free - id,
        {
            assert(id_taken(self.windows@, disk_ids@, id));
            id = id + 1;
        }
        self.next_id = id + 1;
        id
    }

    /// A note window was opened (and shown) for note `id`.
    pub fn open_note(&mut self, id: u64)
        ensures
            final(self).windows() == old(self).windows().insert(id, true),
            final(self).sizes() == old(self).sizes(),
            final(self).next_id() == old(self).next_id(),
            final(self).has_tray() == old(self).has_tray(),
            final(self).started() == old(self).started(),
    {
        self.windows.insert(id, true);
    }

    /// Whether note `id` has an open window.
    pub fn is_open(&self, id: u64) -> (r: bool)
        ensures
            r == self.windows().contains_key(id),
    {
        self.windows.get(id).is_some()
    }

    /// The size to open note `id` at: its remembered size, or the default.
    pub fn size_for(&self, id: u64) -> (size: (i32, i32))
        ensures
            size == (if self.sizes().contains_key(id) {
                self.sizes()[id]
            } else {
                DEFAULT_SIZE
            }),
    {
        match self.sizes.get(id) {
            Some(size) => size,
            None => DEFAULT_SIZE,
        }
    }

    /// What surfacing note `id` from the tray takes: most notes are
    /// already open-but-hidden windows; notes never opened this session
    /// are loaded from disk, at their remembered size.
    pub fn show_note(&self, id: u64) -> (r: ShowNote)
        ensures
            self.windows().contains_key(id) ==> r == ShowNote::Present,
            !self.windows().contains_key(id) ==> r == (if self.sizes().contains_key(id) {
                ShowNote::Load(self.sizes()[id].0, self.sizes()[id].1)
            } else {
                ShowNote::Load(DEFAULT_SIZE.0, DEFAULT_SIZE.1)
            }),
    {
        if self.is_open(id) {
            ShowNote::Present
        } else {
            let (w, h) = self.size_for(id);
            ShowNote::Load(w, h)
        }
    }

    /// Marks the window of note `id`, if open, shown or hidden.
    pub fn set_visible(&mut self, id: u64, visible: bool)
        ensures
            final(self).windows() == (if old(self).windows().contains_key(id) {
                old(self).windows().insert(id, visible)
            } else {
                old(self).windows()
            }),
            final(self).sizes() == old(self).sizes(),
            final(self).next_id() == old(self).next_id(),
            final(self).has_tray() == old(self).has_tray(),
            final(self).started() == old(self).started(),
    {
        if self.windows.get(id).is_some() {
            self.windows.insert(id, visible);
        }
    }

    fn set_all_visible(&mut self, visible: bool)
        ensures
            final(self).windows().dom() == old(self).windows().dom(),
            forall|k: u64| #[trigger] final(self).windows().contains_key(k) ==> final(self).windows()[k]
                == visible,
            final(self).sizes() == old(self).sizes(),
            final(self).next_id() == old(self).next_id(),
            final(self).has_tray() == old(self).has_tray(),
            final(self).started() == old(self).started(),
    {
        let ids = self.windows.ids();
        let ghost dom = self.windows@.dom();
        let mut i: usize = 0;
        while i < ids.len()
            invariant
                i <= ids@.len(),
                ids@.to_set() == dom,
                self.windows@.dom() == dom,
                forall|j: int| 0 <= j < i ==> self.windows@[#[trigger] ids@[j]] == visible,
                self.sizes@ == old(self).sizes@,
                self.next_id == old(self).next_id,
                self.has_tray == old(self).has_tray,
                self.started == old(self).started,
            decreases ids@.len() - i,
        {
            let id = ids[i];
            assert(ids@.to_set().contains(id));
            self.windows.insert(id, visible);
            assert(self.windows@.dom() =~= dom);
            i = i + 1;
        }
        assert forall|k: u64| #[trigger] self.windows@.contains_key(k) implies self.windows@[k]
            == visible by {
            assert(ids@.to_set().contains(k));
            let j = choose|j: int| 0 <= j < ids@.len() && ids@[j] == k;
        }
    }

    /// "Show all notes": present every open note, or, if none is open
    /// (all deleted), ask for a new one (`true`).
    pub fn show_all(&mut self) -> (needs_new_note: bool)
        ensures
            needs_new_note == (old(self).windows() == Map::<u64, bool>::empty()),
            final(self).windows().dom() == old(self).windows().dom(),
            forall|k: u64| #[trigger] final(self).windows().contains_key(k) ==> final(self).windows()[k],
            final(self).sizes() == old(self).sizes(),
            final(self).next_id() == old(self).next_id(),
            final(self).has_tray() == old(self).has_tray(),
            final(self).started() == old(self).started(),
    {
        let ids = self.windows.ids();
        if ids.len() == 0 {
            assert(self.windows@ =~= Map::<u64, bool>::empty()) by {
                assert forall|k: u64| !#[trigger] self.windows@.contains_key(k) by {
                    if self.windows@.contains_key(k) {
                        assert(ids@.to_set().contains(k));
                    }
                }
            }
            return true;
        }
        assert(ids@.to_set().contains(ids@[0]));
        self.set_all_visible(true);
        false
    }

    /// "Close all": every note is hidden; nothing is deleted.
    pub fn hide_all(&mut self)
        ensures
            final(self).windows().dom() == old(self).windows().dom(),
            forall|k: u64| #[trigger] final(self).windows().contains_key(k) ==> !final(self).windows()[k],
            final(self).sizes() == old(self).sizes(),
            final(self).next_id() == old(self).next_id(),
            final(self).has_tray() == old(self).has_tray(),
            final(self).started() == old(self).started(),
    {
        self.set_all_visible(false);
    }

    /// Remembers the window size of note `id`; says whether it changed,
    /// in which case the sizes are to be saved.
    pub fn remember_size(&mut self, id: u64, size: (i32, i32)) -> (changed: bool)
        ensures
            changed == !(old(self).sizes().contains_key(id) && old(self).sizes()[id] == size),
            final(self).sizes() == old(self).sizes().insert(id, size),
            final(self).windows() == old(self).windows(),
            final(self).next_id() == old(self).next_id(),
            final(self).has_tray() == old(self).has_tray(),
            final(self).started() == old(self).started(),
    {
        match self.sizes.get(id) {
            Some(old_size) => if old_size.0 == size.0 && old_size.1 == size.1 {
                assert(self.sizes@ =~= self.sizes@.insert(id, size));
                return false;
            },
            None => {},
        }
        self.sizes.insert(id, size);
        true
    }

    /// Deleting note `id` closes its window and forgets its size; says
    /// whether there was a size, in which case the sizes are to be saved.
    pub fn delete_note(&mut self, id: u64) -> (sizes_changed: bool)
        ensures
            sizes_changed == old(self).sizes().contains_key(id),
            final(self).windows() == old(self).windows().remove(id),
            final(self).sizes() == old(self).sizes().remove(id),
            final(self).next_id() == old(self).next_id(),
            final(self).has_tray() == old(self).has_tray(),
            final(self).started() == old(self).started(),
    {
        self.windows.remove(id);
        self.sizes.remove(id)
    }

    /// Closing a note normally just hides it while the app lives in the
    /// tray. Without a tray there is no way back, so once every note is
    /// hidden the app quits instead of becoming an invisible zombie.
    pub fn should_quit_after_hide(&self) -> (quit: bool)
        ensures
            quit == (!self.has_tray() && forall|k: u64| #[trigger] self.windows().contains_key(k)
                ==> !self.windows()[k]),
    {
        if self.has_tray {
            return false;
        }
        let ids = self.windows.ids();
        let mut i: usize = 0;
        while i < ids.len()
            invariant
                i <= ids@.len(),
                ids@.to_set() == self.windows@.dom(),
                !self.has_tray,
                forall|j: int| 0 <= j < i ==> !self.windows@[#[trigger] ids@[j]],
            decreases ids@.len() - i,
        {
            let id = ids[i];
            assert(ids@.to_set().contains(id));
            match self.windows.get(id) {
                Some(visible) => if visible {
                    assert(self.windows().contains_key(id) && self.windows()[id]);
                    return false;
                },
                None => {},
            }
            i = i + 1;
        }
        assert forall|k: u64| #[trigger] self.windows@.contains_key(k) implies !self.windows@[k] by {
            assert(ids@.to_set().contains(k));
            let j = choose|j: int| 0 <= j < ids@.len() && ids@[j] == k;
        }
        true
    }

    /// The sizes to save: those of notes with an open window (a hidden
    /// window keeps its entry; deleted notes have none).
    pub fn persisted_sizes(&self) -> (t: SizeTable)
        ensures
            t@ == self.sizes().restrict(self.windows().dom()),
    {
        let ids = self.windows.ids();
        self.sizes.restricted_to(&ids)
    }

    /// The ids of the open windows, each once.
    pub fn window_ids(&self) -> (ids: Vec<u64>)
        ensures
            ids@.to_set() == self.windows().dom(),
            ids@.no_duplicates(),
    {
        self.windows.ids()
    }
}

/// Law: deleting a note twice leaves the session as deleting it once.
pub proof fn lemma_delete_is_idempotent(windows: Map<u64, bool>, sizes: Map<u64, (i32, i32)>, id: u64)
    ensures
        windows.remove(id).remove(id) == windows.remove(id),
        sizes.remove(id).remove(id) == sizes.remove(id),
        !sizes.remove(id).contains_key(id),
{
    assert(windows.remove(id).remove(id) =~= windows.remove(id));
    assert(sizes.remove(id).remove(id) =~= sizes.remove(id));
}

} // verus!
