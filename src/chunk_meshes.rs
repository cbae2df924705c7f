use vstd::prelude::*;
use crate::fade::{fade_step, FadeUniform, FADE_DURATION_MICROS};
use crate::geom::LodChunkKey;

verus! {

/// The engine resources of one mesh instance: render entity, mesh buffer, and
/// the static body that carries its collider, if it has one.
#[derive(Clone, Copy, Debug, PartialEq, Eq, Structural)]
pub struct MeshHandles {
    pub entity: u64,
    pub mesh: u64,
    pub body: Option<u64>,
}

/// One mesh instance: its resources and its crossfade.
#[derive(Clone, Copy, Debug, PartialEq, Eq, Structural)]
pub struct MeshRecord {
    pub handles: MeshHandles,
    pub fade: FadeUniform,
}

/// The map that a list of entries stands for: a later entry for a key hides an
/// earlier one.
pub open spec fn entries_map(s: Seq<(LodChunkKey, MeshRecord)>) -> Map<LodChunkKey, MeshRecord>
    decreases s.len(),
{
    if s.len() == 0 {
        Map::empty()
    } else {
        entries_map(s.drop_last()).insert(s.last().0, s.last().1)
    }
}

pub open spec fn fade_in_spec() -> FadeUniform {
    FadeUniform { duration: FADE_DURATION_MICROS, remaining: FADE_DURATION_MICROS, delay: 0, fade_in: true }
}

pub open spec fn fade_out_spec() -> FadeUniform {
    FadeUniform { duration: FADE_DURATION_MICROS, remaining: FADE_DURATION_MICROS, delay: 0, fade_in: false }
}

pub open spec fn finished(e: (LodChunkKey, MeshRecord)) -> bool {
    !e.1.fade.fade_in && e.1.fade.remaining == 0
}

pub open spec fn unfinished(e: (LodChunkKey, MeshRecord)) -> bool {
    !finished(e)
}

pub open spec fn is_finished() -> spec_fn((LodChunkKey, MeshRecord)) -> bool {
    |e: (LodChunkKey, MeshRecord)| finished(e)
}

pub open spec fn is_unfinished() -> spec_fn((LodChunkKey, MeshRecord)) -> bool {
    |e: (LodChunkKey, MeshRecord)| unfinished(e)
}

/// The state of the mesh instances: the live ones by chunk key, and those that
/// were superseded and fade out until they are reaped.
pub struct ChunkMeshes {
    entities: Vec<(LodChunkKey, MeshRecord)>,
    fading: Vec<(LodChunkKey, MeshRecord)>,
}

/// `live` with `k` retired: its record, if any, leaves the live map and joins
/// the fading ones with a fresh fade-out.
pub open spec fn retire_spec(
    live: Map<LodChunkKey, MeshRecord>,
    fading: Seq<(LodChunkKey, MeshRecord)>,
    k: LodChunkKey,
) -> (Map<LodChunkKey, MeshRecord>, Seq<(LodChunkKey, MeshRecord)>) {
    if live.contains_key(k) {
        (live.remove(k), fading.push((k, MeshRecord { handles: live[k].handles, fade: fade_out_spec() })))
    } else {
        (live, fading)
    }
}

impl ChunkMeshes {
    pub closed spec fn live(&self) -> Map<LodChunkKey, MeshRecord> {
        entries_map(self.entities@)
    }

    /// The entries behind `live`, a later one for a key hiding an earlier one.
    pub closed spec fn entry_list(&self) -> Seq<(LodChunkKey, MeshRecord)> {
        self.entities@
    }

    pub closed spec fn fading(&self) -> Seq<(LodChunkKey, MeshRecord)> {
        self.fading@
    }

    pub fn new() -> (r: ChunkMeshes)
        ensures
            r.live() == Map::<LodChunkKey, MeshRecord>::empty(),
            r.fading() == Seq::<(LodChunkKey, MeshRecord)>::empty(),
    {
        ChunkMeshes { entities: Vec::new(), fading: Vec::new() }
    }

    /// The live record of `k`.
    pub fn get(&self, k: &LodChunkKey) -> (r: Option<MeshRecord>)
        ensures
            r == (if self.live().contains_key(*k) { Some(self.live()[*k]) } else { None::<MeshRecord> }),
    {
        let mut found: Option<MeshRecord> = None;
        let mut i: usize = 0;
        while i < self.entities.len()
            invariant
                0 <= i <= self.entities@.len(),
                found == (if entries_map(self.entities@.take(i as int)).contains_key(*k) {
                    Some(entries_map(self.entities@.take(i as int))[*k])
                } else {
                    None::<MeshRecord>
                }),
            decreases self.entities@.len() - i,
        {
            assert(self.entities@.take(i + 1).drop_last() =~= self.entities@.take(i as int));
            if self.entities[i].0 == *k {
                found = Some(self.entities[i].1);
            }
            i = i + 1;
        }
        assert(self.entities@.take(self.entities@.len() as int) =~= self.entities@);
        found
    }

    pub fn contains_key(&self, k: &LodChunkKey) -> (r: bool)
        ensures
            r == self.live().contains_key(*k),
    {
        self.get(k).is_some()
    }

    /// Takes the live record of `k` out of the map.
    fn take(&mut self, k: &LodChunkKey) -> (r: Option<MeshRecord>)
        ensures
            final(self).live() == old(self).live().remove(*k),
            final(self).fading() == old(self).fading(),
            r == (if old(self).live().contains_key(*k) { Some(old(self).live()[*k]) } else { None::<MeshRecord> }),
    {
        let r = self.get(k);
        let mut kept: Vec<(LodChunkKey, MeshRecord)> = Vec::new();
        let mut i: usize = 0;
        while i < self.entities.len()
            invariant
                0 <= i <= self.entities@.len(),
                entries_map(kept@) == entries_map(self.entities@.take(i as int)).remove(*k),
            decreases self.entities@.len() - i,
        {
            assert(self.entities@.take(i + 1).drop_last() =~= self.entities@.take(i as int));
            let e = self.entities[i];
            if e.0 != *k {
                let ghost kb = kept@;
                kept.push(e);
                assert(kept@.drop_last() =~= kb);
                assert(entries_map(kept@) =~= entries_map(self.entities@.take(i + 1)).remove(*k));
            } else {
                assert(entries_map(kept@) =~= entries_map(self.entities@.take(i + 1)).remove(*k));
            }
            i = i + 1;
        }
        assert(self.entities@.take(self.entities@.len() as int) =~= self.entities@);
        self.entities = kept;
        r
    }

    /// Removes the live mesh of `k` at once (no fade), handing back its resources
    /// to be released.
    pub fn remove_entity(&mut self, k: &LodChunkKey) -> (r: Option<MeshHandles>)
        ensures
            final(self).live() == old(self).live().remove(*k),
            final(self).fading() == old(self).fading(),
            r == (if old(self).live().contains_key(*k) { Some(old(self).live()[*k].handles) } else { None::<MeshHandles> }),
    {
        match self.take(k) {
            Some(rec) => Some(rec.handles),
            None => None,
        }
    }

    /// Marks the live mesh of `k`, if any, for fade-out: it leaves the live map
    /// and waits among the fading meshes to be reaped.
    pub fn retire(&mut self, k: &LodChunkKey)
        ensures
            (final(self).live(), final(self).fading()) == retire_spec(old(self).live(), old(self).fading(), *k),
    {
        match self.take(k) {
            Some(rec) => {
                self.fading.push((*k, MeshRecord { handles: rec.handles, fade: FadeUniform::fade_out() }));
            },
            None => {},
        }
    }

    /// Installs a freshly built mesh for `k`, fading in; a mesh that it replaces
    /// fades out.
    pub fn insert_mesh(&mut self, k: &LodChunkKey, handles: MeshHandles)
        ensures
            ({
                let (l, f) = retire_spec(old(self).live(), old(self).fading(), *k);
                &&& final(self).live() == l.insert(*k, MeshRecord { handles, fade: fade_in_spec() })
                &&& final(self).fading() == f
            }),
    {
        self.retire(k);
        let ghost before = self.entities@;
        self.entities.push((*k, MeshRecord { handles, fade: FadeUniform::fade_in() }));
        assert(self.entities@.drop_last() =~= before);
    }

    /// Advances every fade, live and fading, by `dt` microseconds.
    pub fn update_fades(&mut self, dt: u64)
        ensures
            final(self).fading().len() == old(self).fading().len(),
            forall|i: int| 0 <= i < old(self).fading().len() ==> {
                &&& (#[trigger] final(self).fading()[i]).0 == old(self).fading()[i].0
                &&& final(self).fading()[i].1.handles == old(self).fading()[i].1.handles
                &&& final(self).fading()[i].1.fade == fade_step(old(self).fading()[i].1.fade, dt)
            },
            final(self).live().dom() == old(self).live().dom(),
            forall|k: LodChunkKey| #[trigger] old(self).live().contains_key(k) ==> {
                &&& final(self).live()[k].handles == old(self).live()[k].handles
                &&& final(self).live()[k].fade == fade_step(old(self).live()[k].fade, dt)
            },
    {
        let n = self.fading.len();
        let mut i: usize = 0;
        while i < n
            invariant
                n == old(self).fading@.len(),
                self.fading@.len() == n,
                self.entities@ == old(self).entities@,
                0 <= i <= n,
                forall|j: int| 0 <= j < n ==> (#[trigger] self.fading@[j]).0 == old(self).fading@[j].0
                    && self.fading@[j].1.handles == old(self).fading@[j].1.handles,
                forall|j: int| 0 <= j < i ==> (#[trigger] self.fading@[j]).1.fade == fade_step(old(self).fading@[j].1.fade, dt),
                forall|j: int| i <= j < n ==> (#[trigger] self.fading@[j]).1.fade == old(self).fading@[j].1.fade,
            decreases n - i,
        {
            let (k, mut rec) = self.fading[i];
            rec.fade.update(dt);
            self.fading.set(i, (k, rec));
            i = i + 1;
        }
        let ghost f1 = self.fading@;
        let m = self.entities.len();
        let mut j: usize = 0;
        while j < m
            invariant
                self.fading@ == f1,
                m == old(self).entities@.len(),
                self.entities@.len() == m,
                0 <= j <= m,
                forall|a: int| 0 <= a < m ==> (#[trigger] self.entities@[a]).0 == old(self).entities@[a].0
                    && self.entities@[a].1.handles == old(self).entities@[a].1.handles,
                forall|a: int| 0 <= a < j ==> (#[trigger] self.entities@[a]).1.fade == fade_step(old(self).entities@[a].1.fade, dt),
                forall|a: int| j <= a < m ==> (#[trigger] self.entities@[a]).1.fade == old(self).entities@[a].1.fade,
            decreases m - j,
        {
            let (k, mut rec) = self.entities[j];
            rec.fade.update(dt);
            self.entities.set(j, (k, rec));
            j = j + 1;
        }
        proof {
            lemma_map_pointwise(old(self).entities@, self.entities@, dt);
        }
    }

    /// Reaps the fading meshes whose fade-out has ended, handing back their
    /// resources to be released.
    pub fn despawn_finished(&mut self) -> (r: Vec<(LodChunkKey, MeshRecord)>)
        ensures
            final(self).live() == old(self).live(),
            final(self).fading() == old(self).fading().filter(is_unfinished()),
            r@ == old(self).fading().filter(is_finished()),
    {
        let mut done: Vec<(LodChunkKey, MeshRecord)> = Vec::new();
        let mut kept: Vec<(LodChunkKey, MeshRecord)> = Vec::new();
        let mut i: usize = 0;
        proof {
            assert(self.fading@.take(0) =~= Seq::<(LodChunkKey, MeshRecord)>::empty());
            reveal(Seq::filter);
        }
        while i < self.fading.len()
            invariant
                0 <= i <= self.fading@.len(),
                done@ == self.fading@.take(i as int).filter(is_finished()),
                kept@ == self.fading@.take(i as int).filter(is_unfinished()),
            decreases self.fading@.len() - i,
        {
            let e = self.fading[i];
            proof {
                assert(self.fading@.take(i + 1) =~= self.fading@.take(i as int).push(e));
                self.fading@.take(i as int).lemma_filter_push(e, is_finished());
                self.fading@.take(i as int).lemma_filter_push(e, is_unfinished());
                assert(is_finished()(e) == finished(e));
                assert(is_unfinished()(e) == !finished(e));
            }
            if e.1.fade.is_finished_fade_out() {
                done.push(e);
            } else {
                kept.push(e);
            }
            i = i + 1;
        }
        assert(self.fading@.take(self.fading@.len() as int) =~= self.fading@);
        self.fading = kept;
        done
    }

    /// Empties the map, handing back every mesh, live and fading, for release.
    pub fn clear_entities(&mut self) -> (r: Vec<(LodChunkKey, MeshRecord)>)
        ensures
            final(self).live() == Map::<LodChunkKey, MeshRecord>::empty(),
            final(self).fading() == Seq::<(LodChunkKey, MeshRecord)>::empty(),
            r@ == old(self).entry_list() + old(self).fading(),
            forall|k: LodChunkKey| #[trigger] old(self).live().contains_key(k)
                ==> exists|i: int| 0 <= i < r@.len() && r@[i] == (k, old(self).live()[k]),
    {
        let ghost ents = self.entities@;
        proof {
            lemma_map_entries_listed(ents);
        }
        let mut all: Vec<(LodChunkKey, MeshRecord)> = Vec::new();
        all.append(&mut self.entities);
        all.append(&mut self.fading);
        proof {
            assert forall|k: LodChunkKey| #[trigger] entries_map(ents).contains_key(k)
                implies exists|i: int| 0 <= i < all@.len() && all@[i] == (k, entries_map(ents)[k]) by {
                let i = choose|i: int| 0 <= i < ents.len() && ents[i] == (k, entries_map(ents)[k]);
                assert(all@[i] == ents[i]);
            }
        }
        all
    }
}

impl Default for ChunkMeshes {
    fn default() -> (r: ChunkMeshes)
        ensures
            r.live() == Map::<LodChunkKey, MeshRecord>::empty(),
            r.fading() == Seq::<(LodChunkKey, MeshRecord)>::empty(),
    {
        ChunkMeshes::new()
    }
}

/// Every key of the map stands in the list with its value.
proof fn lemma_map_entries_listed(s: Seq<(LodChunkKey, MeshRecord)>)
    ensures
        forall|k: LodChunkKey| #[trigger] entries_map(s).contains_key(k)
            ==> exists|i: int| 0 <= i < s.len() && s[i] == (k, entries_map(s)[k]),
    decreases s.len(),
{
    if s.len() > 0 {
        lemma_map_entries_listed(s.drop_last());
        assert forall|k: LodChunkKey| #[trigger] entries_map(s).contains_key(k)
            implies exists|i: int| 0 <= i < s.len() && s[i] == (k, entries_map(s)[k]) by {
            if k == s.last().0 {
                assert(s[s.len() - 1] == (k, entries_map(s)[k]));
            } else {
                let i = choose|i: int| 0 <= i < s.drop_last().len() && s.drop_last()[i] == (k, entries_map(s.drop_last())[k]);
                assert(s[i] == (k, entries_map(s)[k]));
            }
        }
    }
}

/// Updating every entry's fade in place updates every value of the map alike.
proof fn lemma_map_pointwise(a: Seq<(LodChunkKey, MeshRecord)>, b: Seq<(LodChunkKey, MeshRecord)>, dt: u64)
    requires
        a.len() == b.len(),
        forall|i: int| 0 <= i < a.len() ==> (#[trigger] b[i]).0 == a[i].0 && b[i].1.handles == a[i].1.handles
            && b[i].1.fade == fade_step(a[i].1.fade, dt),
    ensures
        entries_map(b).dom() == entries_map(a).dom(),
        forall|k: LodChunkKey| #[trigger] entries_map(a).contains_key(k) ==> {
            &&& entries_map(b)[k].handles == entries_map(a)[k].handles
            &&& entries_map(b)[k].fade == fade_step(entries_map(a)[k].fade, dt)
        },
    decreases a.len(),
{
    if a.len() > 0 {
        lemma_map_pointwise(a.drop_last(), b.drop_last(), dt);
        assert(b[b.len() - 1].0 == a[a.len() - 1].0);
        assert(entries_map(b).dom() =~= entries_map(a).dom());
    }
}

} // verus!
