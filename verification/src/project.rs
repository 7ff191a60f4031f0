//! The live project aggregate: the loaded document, the path it came
//! from, its snapshot history, and the validity of the derived caches,
//! together with the invalidation policy that decides which caches an
//! edit makes stale.

use vstd::prelude::*;

use crate::channel::{poll_spec, ChannelCell, PollCursor};
use crate::codec::{enc_doc, serialize};
use crate::document::{DocView, Document};
use crate::history::{record_spec, undo_spec, SnapshotHistory};

verus! {

/// Mathematical model of a [`LoadedProject`].
#[verifier::ext_equal]
pub ghost struct LoadedView {
    pub data: DocView,
    pub path: Seq<char>,
}

/// A parsed document paired with the filesystem path it was loaded from.
pub struct LoadedProject {
    pub data: Document,
    pub path: String,
}

impl View for LoadedProject {
    type V = LoadedView;

    open spec fn view(&self) -> LoadedView {
        LoadedView { data: self.data@, path: self.path@ }
    }
}

impl LoadedProject {
    /// A deep copy whose model equals this record's model.
    pub fn duplicate(&self) -> (r: LoadedProject)
        ensures
            r@ == self@,
    {
        let r = LoadedProject { data: self.data.duplicate(), path: self.path.clone() };
        proof {
            assert(r@ =~= self@);
        }
        r
    }
}

pub open spec fn opt_loaded_view(v: Option<LoadedProject>) -> Option<LoadedView> {
    match v {
        None => None,
        Some(lp) => Some(lp@),
    }
}

/// The derived caches, one flag per cache key. Depending on where a value
/// of this type stands it reads as "still valid" or as "made stale".
#[derive(PartialEq, Eq, Structural, Clone, Copy, Debug)]
pub struct CacheFlags {
    pub source_images: bool,
    pub metatile_atlas: bool,
    pub metatileset_swatches: bool,
    pub map_preview: bool,
}

/// One derived cache.
#[derive(PartialEq, Eq, Structural, Clone, Copy, Debug)]
pub enum CacheKey {
    SourceImages,
    MetatileAtlas,
    MetatilesetSwatches,
    MapPreview,
}

/// Every cache stale: the state right after a project is (re)placed.
pub open spec fn all_stale() -> CacheFlags {
    CacheFlags {
        source_images: false,
        metatile_atlas: false,
        metatileset_swatches: false,
        map_preview: false,
    }
}

/// The invalidation policy: which caches go stale when the document
/// changes from `o` to `n`. The dependency table is static:
/// the source-image cache depends on the `sources` section; the
/// metatile atlas on `sources` and `metatiles`; the metatileset
/// swatches on `metatilesets`; the map previews on `metatiles` and
/// `maps`.
pub open spec fn stale_spec(o: DocView, n: DocView) -> CacheFlags {
    CacheFlags {
        source_images: o.sources != n.sources,
        metatile_atlas: o.sources != n.sources || o.metatiles != n.metatiles,
        metatileset_swatches: o.metatilesets != n.metatilesets,
        map_preview: o.metatiles != n.metatiles || o.maps != n.maps,
    }
}

/// A valid-flag set after the caches flagged in `stale` are discarded.
pub open spec fn apply_stale(valid: CacheFlags, stale: CacheFlags) -> CacheFlags {
    CacheFlags {
        source_images: valid.source_images && !stale.source_images,
        metatile_atlas: valid.metatile_atlas && !stale.metatile_atlas,
        metatileset_swatches: valid.metatileset_swatches && !stale.metatileset_swatches,
        map_preview: valid.map_preview && !stale.map_preview,
    }
}

/// A valid-flag set after one cache has been recomputed.
pub open spec fn set_valid(valid: CacheFlags, key: CacheKey) -> CacheFlags {
    match key {
        CacheKey::SourceImages => CacheFlags { source_images: true, ..valid },
        CacheKey::MetatileAtlas => CacheFlags { metatile_atlas: true, ..valid },
        CacheKey::MetatilesetSwatches => CacheFlags { metatileset_swatches: true, ..valid },
        CacheKey::MapPreview => CacheFlags { map_preview: true, ..valid },
    }
}

/// Decides which caches the change from `o` to `n` makes stale.
pub fn stale_between(o: &Document, n: &Document) -> (r: CacheFlags)
    ensures
        r == stale_spec(o@, n@),
{
    let sources_changed = !crate::document::section_eq(&o.sources, &n.sources);
    let metatiles_changed = !crate::document::section_eq(&o.metatiles, &n.metatiles);
    let metatilesets_changed = !crate::document::section_eq(&o.metatilesets, &n.metatilesets);
    let maps_changed = !crate::document::section_eq(&o.maps, &n.maps);
    CacheFlags {
        source_images: sources_changed,
        metatile_atlas: sources_changed || metatiles_changed,
        metatileset_swatches: metatilesets_changed,
        map_preview: metatiles_changed || maps_changed,
    }
}

/// Invalidation is scoped: an edit that leaves the `metatiles`,
/// `metatilesets` and `maps` sections unchanged can stale only the caches
/// declared dependent on `sources`, never the others.
pub proof fn lemma_invalidation_scoped(o: DocView, n: DocView)
    requires
        o.metatiles == n.metatiles,
        o.metatilesets == n.metatilesets,
        o.maps == n.maps,
    ensures
        stale_spec(o, n).metatileset_swatches == false,
        stale_spec(o, n).map_preview == false,
        o.sources != n.sources ==> stale_spec(o, n).source_images && stale_spec(
            o,
            n,
        ).metatile_atlas,
{
}

/// The interactive-thread-owned state of the loaded project.
pub struct ProjectState {
    pub data: Document,
    pub path: String,
    pub history: SnapshotHistory,
    /// Validity of each derived cache; a cleared flag means the external
    /// consumer must recompute that cache before using it.
    pub caches: CacheFlags,
}

impl ProjectState {
    pub open spec fn wf(&self) -> bool {
        self.history.wf()
    }

    /// Logical time of the newest history entry, for monotonicity bounds.
    pub open spec fn last_recorded(&self) -> int {
        if self.history@.len() == 0 {
            0
        } else {
            self.history@.last().0 as int
        }
    }

    /// State for a freshly placed project: history seeded with the single
    /// entry `(now, data)` and every cache stale.
    pub fn place(loaded: LoadedProject, now: u64, min_interval: u64) -> (s: ProjectState)
        ensures
            s.data@ == loaded.data@,
            s.path@ == loaded.path@,
            s.history@ == seq![(now, loaded.data@)],
            s.history.min_interval == min_interval,
            s.caches == all_stale(),
            s.wf(),
    {
        let snapshot = loaded.data.duplicate();
        let mut history = SnapshotHistory::new(min_interval);
        history.record(now, snapshot);
        ProjectState {
            data: loaded.data,
            path: loaded.path,
            history,
            caches: CacheFlags {
                source_images: false,
                metatile_atlas: false,
                metatileset_swatches: false,
                map_preview: false,
            },
        }
    }

    /// Exclusive access to the document for an edit; nothing else of the
    /// state changes, and no snapshot is taken here (snapshots are driven
    /// once per tick, so rapid edits coalesce).
    pub fn data_mut(&mut self) -> (r: &mut Document)
        ensures
            *r == old(self).data,
            final(self).data == *final(r),
            final(self).path == old(self).path,
            final(self).history == old(self).history,
            final(self).caches == old(self).caches,
    {
        &mut self.data
    }

    /// Feeds the current state into the snapshot history.
    pub fn tick(&mut self, now: u64)
        requires
            old(self).wf(),
            old(self).history@.len() > 0 ==> now >= old(self).last_recorded(),
        ensures
            final(self).history@ == record_spec(
                old(self).history@,
                old(self).history.min_interval,
                now,
                old(self).data@,
            ),
            final(self).history.min_interval == old(self).history.min_interval,
            final(self).data == old(self).data,
            final(self).path == old(self).path,
            final(self).caches == old(self).caches,
            final(self).wf(),
            final(self).last_recorded() <= now,
    {
        let snapshot = self.data.duplicate();
        self.history.record(now, snapshot);
    }

    /// Swaps the prior snapshot in, if there is one, and discards every
    /// cache the change makes stale. Returns whether an undo occurred.
    pub fn undo(&mut self) -> (undone: bool)
        ensures
            match undo_spec(old(self).history@, old(self).data@) {
                None => !undone && *final(self) == *old(self),
                Some(prev) => undone && final(self).data@ == prev && final(self).path == old(
                    self,
                ).path && final(self).history == old(self).history && final(self).caches
                    == apply_stale(old(self).caches, stale_spec(old(self).data@, prev)),
            },
    {
        match self.history.undo(&self.data) {
            None => false,
            Some(prev) => {
                let stale = stale_between(&self.data, &prev);
                self.caches = CacheFlags {
                    source_images: self.caches.source_images && !stale.source_images,
                    metatile_atlas: self.caches.metatile_atlas && !stale.metatile_atlas,
                    metatileset_swatches: self.caches.metatileset_swatches
                        && !stale.metatileset_swatches,
                    map_preview: self.caches.map_preview && !stale.map_preview,
                };
                self.data = prev;
                true
            },
        }
    }

    /// Declares one cache recomputed by the external consumer.
    pub fn mark_valid(&mut self, key: CacheKey)
        ensures
            final(self).caches == set_valid(old(self).caches, key),
            final(self).data == old(self).data,
            final(self).path == old(self).path,
            final(self).history == old(self).history,
    {
        match key {
            CacheKey::SourceImages => self.caches.source_images = true,
            CacheKey::MetatileAtlas => self.caches.metatile_atlas = true,
            CacheKey::MetatilesetSwatches => self.caches.metatileset_swatches = true,
            CacheKey::MapPreview => self.caches.map_preview = true,
        }
    }
}

/// The root interactive state: the live project, the load channel's cell,
/// and this thread's polling position on it.
pub struct RootState {
    pub project: Option<ProjectState>,
    pub cell: ChannelCell,
    pub cursor: PollCursor,
}

impl RootState {
    pub open spec fn wf(&self) -> bool {
        match self.project {
            None => true,
            Some(p) => p.wf(),
        }
    }

    /// No project loaded, a fresh channel, nothing to observe.
    pub fn new() -> (s: RootState)
        ensures
            s.project == None::<ProjectState>,
            s.cell@.value == None::<LoadedView>,
            s.cell@.version == 0,
            s.cell@.generation == 0,
            s.cursor@ == 0,
            s.wf(),
    {
        let cell = ChannelCell::create(None);
        let cursor = PollCursor::subscribe(&cell);
        RootState { project: None, cell, cursor }
    }

    /// Starts a load: draws the ticket the worker must publish under.
    pub fn begin_load(&mut self) -> (ticket: u64)
        requires
            old(self).cell@.generation < u64::MAX,
        ensures
            final(self).cell@.generation == old(self).cell@.generation + 1,
            final(self).cell@.value == old(self).cell@.value,
            final(self).cell@.version == old(self).cell@.version,
            ticket as nat == final(self).cell@.generation,
            final(self).project == old(self).project,
            final(self).cursor == old(self).cursor,
    {
        self.cell.begin_load()
    }

    /// Hands a load's outcome to the channel under the worker's ticket.
    pub fn publish(&mut self, ticket: u64, v: Option<LoadedProject>) -> (accepted: bool)
        requires
            old(self).cell@.version < u64::MAX,
        ensures
            final(self).cell@ == crate::channel::publish_spec(
                old(self).cell@,
                ticket as nat,
                opt_loaded_view(v),
            ),
            accepted == (ticket as nat == old(self).cell@.generation),
            final(self).project == old(self).project,
            final(self).cursor == old(self).cursor,
    {
        self.cell.publish(ticket, v)
    }

    /// The once-per-frame poll: on a freshly published project, replaces
    /// the whole project state (history seeded at `now`, every cache
    /// stale); on a published "no project", closes it; otherwise leaves
    /// everything as it was.
    pub fn poll_loaded(&mut self, now: u64, min_interval: u64) -> (changed: bool)
        requires
            old(self).wf(),
        ensures
            ({
                let (rs, seen) = poll_spec(old(self).cursor@, old(self).cell@);
                final(self).cursor@ == seen && final(self).cell == old(self).cell && match rs {
                    None => !changed && final(self).project == old(self).project,
                    Some(None) => changed && final(self).project == None::<ProjectState>,
                    Some(Some(lv)) => changed && match final(self).project {
                        Some(p) => p.data@ == lv.data && p.path@ == lv.path && p.history@ == seq![
                            (now, lv.data),
                        ] && p.history.min_interval == min_interval && p.caches == all_stale(),
                        None => false,
                    },
                }
            }),
            final(self).wf(),
    {
        match self.cursor.poll_if_new(&self.cell) {
            None => false,
            Some(None) => {
                self.project = None;
                true
            },
            Some(Some(loaded)) => {
                self.project = Some(ProjectState::place(loaded, now, min_interval));
                true
            },
        }
    }

    /// Logical time of the live project's newest history entry.
    pub open spec fn last_recorded(&self) -> int {
        match self.project {
            None => 0,
            Some(p) => p.last_recorded(),
        }
    }

    /// Logical time of the live project's newest history entry, for
    /// callers that must check the clock bound before a tick.
    pub fn last_recorded_time(&self) -> (t: u64)
        ensures
            t as int == self.last_recorded(),
    {
        match &self.project {
            None => 0,
            Some(p) => {
                let n = p.history.entries.len();
                if n == 0 {
                    0
                } else {
                    proof {
                        assert(p.history@[n - 1]
                            == (p.history.entries@[n - 1].time, p.history.entries@[n - 1].state@));
                    }
                    p.history.entries[n - 1].time
                }
            },
        }
    }

    /// Feeds the current state into the history, once per frame.
    pub fn tick(&mut self, now: u64)
        requires
            old(self).wf(),
            now >= old(self).last_recorded(),
        ensures
            match old(self).project {
                None => *final(self) == *old(self),
                Some(p) => final(self).cell == old(self).cell && final(self).cursor == old(
                    self,
                ).cursor && match final(self).project {
                    Some(q) => q.history@ == record_spec(
                        p.history@,
                        p.history.min_interval,
                        now,
                        p.data@,
                    ) && q.history.min_interval == p.history.min_interval && q.data == p.data
                        && q.path == p.path && q.caches == p.caches,
                    None => false,
                },
            },
            final(self).wf(),
            final(self).last_recorded() <= now,
    {
        match &mut self.project {
            None => (),
            Some(p) => p.tick(now),
        }
    }

    /// Undo with no project loaded is a defined no-op returning `false`.
    pub fn undo(&mut self) -> (undone: bool)
        ensures
            match old(self).project {
                None => !undone && *final(self) == *old(self),
                Some(p) => final(self).cell == old(self).cell && final(self).cursor == old(
                    self,
                ).cursor && match undo_spec(p.history@, p.data@) {
                    None => !undone && final(self).project == old(self).project,
                    Some(prev) => undone && match final(self).project {
                        Some(q) => q.data@ == prev && q.path == p.path && q.history == p.history
                            && q.caches == apply_stale(p.caches, stale_spec(p.data@, prev)),
                        None => false,
                    },
                },
            },
    {
        match &mut self.project {
            None => false,
            Some(p) => p.undo(),
        }
    }

    /// What a save must write: the live document in canonical form, at
    /// the path it was loaded from; nothing when no project is loaded.
    pub fn save_request(&self) -> (r: Option<(String, Vec<u8>)>)
        ensures
            match self.project {
                None => r == None::<(String, Vec<u8>)>,
                Some(p) => match r {
                    Some(req) => req.0@ == p.path@ && req.1@ == enc_doc(p.data@),
                    None => false,
                },
            },
    {
        match &self.project {
            None => None,
            Some(p) => Some((p.path.clone(), serialize(&p.data))),
        }
    }
}

} // verus!
