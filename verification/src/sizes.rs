//! Remembered window sizes, keyed by note id, and the `state.toml` record
//! that keeps them on disk.

use vstd::prelude::*;
use crate::atomic::{temp_path, AtomicWrite, WriteStage};
use crate::paths::path_join;
use crate::storage::{notes_dir_of, Store};
use crate::table::{pairs_map, IdTable};

verus! {

/// The version written into `state.toml`.
pub const STATE_VERSION: u32 = 1;

/// One remembered window size.
#[derive(Debug, Clone, Copy, PartialEq, Eq)]
pub struct NoteGeom {
    pub id: u64,
    pub width: i32,
    pub height: i32,
}

/// The sizes that a list of records gives, a later record for the same
/// id replacing an earlier one (as collecting into a map does).
pub open spec fn geoms_map(s: Seq<NoteGeom>) -> Map<u64, (i32, i32)>
    decreases s.len(),
{
    if s.len() == 0 {
        Map::empty()
    } else {
        geoms_map(s.drop_last()).insert(s.last().id, (s.last().width, s.last().height))
    }
}

/// No id occurs twice.
pub open spec fn distinct_geom_ids(s: Seq<NoteGeom>) -> bool {
    forall|i: int, j: int| 0 <= i < s.len() && 0 <= j < s.len() && i != j ==> s[i].id != s[j].id
}

pub open spec fn geom_pair(g: NoteGeom) -> (u64, (i32, i32)) {
    (g.id, (g.width, g.height))
}

proof fn lemma_geoms_pairs(g: Seq<NoteGeom>, p: Seq<(u64, (i32, i32))>)
    requires
        g.len() == p.len(),
        forall|i: int| 0 <= i < g.len() ==> #[trigger] p[i] == geom_pair(g[i]),
    ensures
        geoms_map(g) == pairs_map(p),
    decreases g.len(),
{
    if g.len() > 0 {
        assert forall|i: int| 0 <= i < g.len() - 1 implies #[trigger] p.drop_last()[i] == geom_pair(
            g.drop_last()[i],
        ) by {
            assert(p.drop_last()[i] == p[i] && g.drop_last()[i] == g[i]);
        }
        lemma_geoms_pairs(g.drop_last(), p.drop_last());
        assert(p.last() == geom_pair(g.last()));
    }
}

/// The remembered window sizes of the notes, one per id.
pub type SizeTable = IdTable<(i32, i32)>;

/// The records to keep on disk for a table of sizes, one per id.
pub fn sizes_to_geoms(sizes: &SizeTable) -> (g: Vec<NoteGeom>)
    ensures
        geoms_map(g@) == sizes@,
        distinct_geom_ids(g@),
{
    let p = sizes.pairs();
    let mut g: Vec<NoteGeom> = Vec::new();
    let mut i: usize = 0;
    while i < p.len()
        invariant
            i <= p@.len(),
            g@.len() == i,
            forall|j: int| 0 <= j < i ==> p@[j] == #[trigger] geom_pair(g@[j]),
        decreases p@.len() - i,
    {
        let (id, (width, height)) = p[i];
        g.push(NoteGeom { id, width, height });
        i = i + 1;
    }
    proof {
        lemma_geoms_pairs(g@, p@);
        assert forall|a: int, b: int|
            0 <= a < g@.len() && 0 <= b < g@.len() && a != b implies g@[a].id != g@[b].id by {
            assert(p@[a] == geom_pair(g@[a]) && p@[b] == geom_pair(g@[b]));
        }
    }
    g
}

/// The sizes that a list of records gives; a later record for an id
/// replaces an earlier one.
pub fn sizes_from_geoms(geoms: &Vec<NoteGeom>) -> (t: SizeTable)
    ensures
        t@ == geoms_map(geoms@),
{
    let mut p: Vec<(u64, (i32, i32))> = Vec::new();
    let mut i: usize = 0;
    while i < geoms.len()
        invariant
            i <= geoms@.len(),
            p@.len() == i,
            forall|j: int| 0 <= j < i ==> #[trigger] p@[j] == geom_pair(geoms@[j]),
        decreases geoms@.len() - i,
    {
        let g = geoms[i];
        p.push((g.id, (g.width, g.height)));
        i = i + 1;
    }
    proof {
        lemma_geoms_pairs(geoms@, p@);
    }
    IdTable::from_pairs(&p)
}

/// The contents of `state.toml`.
#[derive(Debug, Clone, PartialEq, Eq)]
pub struct StateFile {
    pub version: u32,
    pub note: Vec<NoteGeom>,
}

/// A planned save of the window sizes: serialize `state`, create `dir`
/// (the notes directory, with its parents),
/// then write the bytes to `write.target` atomically.
pub struct StateSave {
    pub dir: String,
    pub state: StateFile,
    pub write: AtomicWrite,
}

impl Store {
    /// The saved window sizes, from the parsed `state.toml`. A missing or
    /// corrupt state file (`None`) is not an error: geometry is a nicety,
    /// the notes themselves are the data, so it gives no sizes.
    pub fn load_sizes(&self, state: Option<StateFile>) -> (t: SizeTable)
        ensures
            t@ == match state {
                Some(s) => geoms_map(s.note@),
                None => Map::<u64, (i32, i32)>::empty(),
            },
    {
        match state {
            Some(s) => sizes_from_geoms(&s.note),
            None => SizeTable::new(),
        }
    }

    /// Plans saving the window sizes: the record to serialize, with the
    /// current version and one entry per id, and its atomic write to
    /// `state.toml` in the data directory.
    pub fn save_sizes(&self, sizes: &SizeTable) -> (s: StateSave)
        ensures
            s.state.version == STATE_VERSION,
            geoms_map(s.state.note@) == sizes@,
            distinct_geom_ids(s.state.note@),
            s.dir@ == notes_dir_of(self@),
            s.write.dir@ == self@,
            s.write.target@ == path_join(self@, "state.toml"@),
            s.write.temp@ == temp_path(path_join(self@, "state.toml"@)),
            s.write.stage == WriteStage::Start,
            s.write.outcome is None,
    {
        let state = StateFile { version: STATE_VERSION, note: sizes_to_geoms(sizes) };
        let dir = self.notes_dir();
        let write = AtomicWrite::new(String::from_str(self.base()), self.state_path());
        StateSave { dir, state, write }
    }
}

} // verus!
