use vstd::prelude::*;
use std::collections::VecDeque;
use crate::chunk_meshes::{retire_spec, ChunkMeshes, MeshRecord};
use crate::clipmap::LodChunkUpdate;
use crate::geom::LodChunkKey;

verus! {

/// Mesh generation tasks launched per frame and per worker thread.
pub const MESH_TASKS_PER_THREAD: usize = 40;

/// Pending work for the mesher.
#[derive(Clone, Debug, PartialEq, Eq)]
pub enum MeshCommand {
    Create(LodChunkKey),
    Update(LodChunkUpdate),
}

/// Mesh commands waiting to be applied, freshest first.
pub struct MeshCommandQueue {
    commands: VecDeque<MeshCommand>,
}

impl View for MeshCommandQueue {
    type V = Seq<MeshCommand>;

    closed spec fn view(&self) -> Seq<MeshCommand> {
        self.commands@
    }
}

impl MeshCommandQueue {
    pub fn new() -> (r: MeshCommandQueue)
        ensures
            r@ == Seq::<MeshCommand>::empty(),
    {
        MeshCommandQueue { commands: VecDeque::new() }
    }

    /// Adds a command; it will be the first one applied.
    pub fn enqueue(&mut self, command: MeshCommand)
        ensures
            final(self)@ == seq![command] + old(self)@,
    {
        self.commands.push_front(command);
    }

    pub fn is_empty(&self) -> (r: bool)
        ensures
            r == (self@.len() == 0),
    {
        self.commands.len() == 0
    }

    pub fn len(&self) -> (r: usize)
        ensures
            r == self@.len(),
    {
        self.commands.len()
    }

    pub fn clear(&mut self)
        ensures
            final(self)@ == Seq::<MeshCommand>::empty(),
    {
        self.commands.clear();
    }
}

impl Default for MeshCommandQueue {
    fn default() -> (r: MeshCommandQueue)
        ensures
            r@ == Seq::<MeshCommand>::empty(),
    {
        MeshCommandQueue::new()
    }
}

/// Budget of mesh generation tasks for one frame.
pub fn max_mesh_creations_per_frame(thread_num: usize) -> (r: usize)
    requires
        thread_num <= usize::MAX / MESH_TASKS_PER_THREAD,
    ensures
        r == MESH_TASKS_PER_THREAD * thread_num,
{
    MESH_TASKS_PER_THREAD * thread_num
}

/// What applying commands has done so far: the live meshes, the fading ones, and
/// the chunks whose meshes were sent for generation, in order.
pub type PlanState = (Map<LodChunkKey, MeshRecord>, Seq<(LodChunkKey, MeshRecord)>, Seq<LodChunkKey>);

/// A mesh for `k` is generated unless a live one exists.
pub open spec fn launch(s: PlanState, k: LodChunkKey) -> PlanState {
    if s.0.contains_key(k) { s } else { (s.0, s.1, s.2.push(k)) }
}

pub open spec fn launch_all(s: PlanState, ks: Seq<LodChunkKey>) -> PlanState
    decreases ks.len(),
{
    if ks.len() == 0 { s } else { launch(launch_all(s, ks.drop_last()), ks.last()) }
}

pub open spec fn retire_in(s: PlanState, k: LodChunkKey) -> PlanState {
    let (l, f) = retire_spec(s.0, s.1, k);
    (l, f, s.2)
}

pub open spec fn retire_all(s: PlanState, ks: Seq<LodChunkKey>) -> PlanState
    decreases ks.len(),
{
    if ks.len() == 0 { s } else { retire_in(retire_all(s, ks.drop_last()), ks.last()) }
}

/// The effect of one command: a split retires the coarse mesh and generates the
/// finer ones; a merge retires the finer meshes and generates the coarse one.
pub open spec fn command_step(s: PlanState, c: MeshCommand) -> PlanState {
    match c {
        MeshCommand::Create(k) => launch(s, k),
        MeshCommand::Update(LodChunkUpdate::Split(sp)) => launch_all(retire_in(s, sp.old_chunk), sp.new_chunks@),
        MeshCommand::Update(LodChunkUpdate::Merge(m)) => launch(retire_all(s, m.old_chunks@), m.new_chunk),
    }
}

pub open spec fn run_commands(s: PlanState, cs: Seq<MeshCommand>) -> PlanState
    decreases cs.len(),
{
    if cs.len() == 0 { s } else { command_step(run_commands(s, cs.drop_last()), cs.last()) }
}

fn launch_exec(meshes: &ChunkMeshes, k: &LodChunkKey, out: &mut Vec<LodChunkKey>)
    ensures
        launch((meshes.live(), meshes.fading(), old(out)@), *k) == (meshes.live(), meshes.fading(), final(out)@),
{
    if !meshes.contains_key(k) {
        out.push(*k);
    }
}

fn apply_command(meshes: &mut ChunkMeshes, c: &MeshCommand, out: &mut Vec<LodChunkKey>)
    ensures
        command_step((old(meshes).live(), old(meshes).fading(), old(out)@), *c)
            == (final(meshes).live(), final(meshes).fading(), final(out)@),
{
    match c {
        MeshCommand::Create(k) => {
            launch_exec(meshes, k, out);
        },
        MeshCommand::Update(LodChunkUpdate::Split(sp)) => {
            meshes.retire(&sp.old_chunk);
            let ghost s1: PlanState = (meshes.live(), meshes.fading(), out@);
            let mut i: usize = 0;
            while i < sp.new_chunks.len()
                invariant
                    0 <= i <= sp.new_chunks@.len(),
                    launch_all(s1, sp.new_chunks@.take(i as int)) == (meshes.live(), meshes.fading(), out@),
                decreases sp.new_chunks@.len() - i,
            {
                assert(sp.new_chunks@.take(i + 1).drop_last() =~= sp.new_chunks@.take(i as int));
                launch_exec(meshes, &sp.new_chunks[i], out);
                i = i + 1;
            }
            assert(sp.new_chunks@.take(sp.new_chunks@.len() as int) =~= sp.new_chunks@);
        },
        MeshCommand::Update(LodChunkUpdate::Merge(m)) => {
            let ghost s0: PlanState = (meshes.live(), meshes.fading(), out@);
            let mut i: usize = 0;
            while i < m.old_chunks.len()
                invariant
                    0 <= i <= m.old_chunks@.len(),
                    retire_all(s0, m.old_chunks@.take(i as int)) == (meshes.live(), meshes.fading(), out@),
                decreases m.old_chunks@.len() - i,
            {
                assert(m.old_chunks@.take(i + 1).drop_last() =~= m.old_chunks@.take(i as int));
                meshes.retire(&m.old_chunks[i]);
                i = i + 1;
            }
            assert(m.old_chunks@.take(m.old_chunks@.len() as int) =~= m.old_chunks@);
            launch_exec(meshes, &m.new_chunk, out);
        },
    }
}

/// Number of keys of `ks` without a live mesh in `live`, repeats counted.
pub open spec fn count_absent(live: Map<LodChunkKey, MeshRecord>, ks: Seq<LodChunkKey>) -> int
    decreases ks.len(),
{
    if ks.len() == 0 {
        0
    } else {
        count_absent(live, ks.drop_last()) + if live.contains_key(ks.last()) { 0int } else { 1int }
    }
}

/// Number of mesh generations that command `c` launches over the live meshes `live`.
pub open spec fn launches_of(live: Map<LodChunkKey, MeshRecord>, c: MeshCommand) -> int {
    match c {
        MeshCommand::Create(k) => if live.contains_key(k) { 0 } else { 1 },
        MeshCommand::Update(LodChunkUpdate::Split(sp)) => count_absent(live.remove(sp.old_chunk), sp.new_chunks@),
        MeshCommand::Update(LodChunkUpdate::Merge(m)) =>
            if live.contains_key(m.new_chunk) && !m.old_chunks@.contains(m.new_chunk) { 0 } else { 1 },
    }
}

proof fn lemma_launch_all(s: PlanState, ks: Seq<LodChunkKey>)
    ensures
        launch_all(s, ks).0 == s.0,
        launch_all(s, ks).1 == s.1,
        launch_all(s, ks).2.len() == s.2.len() + count_absent(s.0, ks),
        0 <= count_absent(s.0, ks) <= ks.len(),
    decreases ks.len(),
{
    if ks.len() > 0 {
        lemma_launch_all(s, ks.drop_last());
    }
}

proof fn lemma_retire_all(s: PlanState, ks: Seq<LodChunkKey>)
    ensures
        retire_all(s, ks).2 == s.2,
        forall|x: LodChunkKey| #[trigger] retire_all(s, ks).0.contains_key(x) <==> s.0.contains_key(x) && !ks.contains(x),
    decreases ks.len(),
{
    if ks.len() > 0 {
        let t = ks.drop_last();
        lemma_retire_all(s, t);
        assert forall|x: LodChunkKey| #[trigger] retire_all(s, ks).0.contains_key(x) <==> s.0.contains_key(x) && !ks.contains(x) by {
            if ks.contains(x) && x != ks.last() {
                let i = choose|i: int| 0 <= i < ks.len() && ks[i] == x;
                assert(t[i] == x);
            }
            if t.contains(x) {
                let i = choose|i: int| 0 <= i < t.len() && t[i] == x;
                assert(ks[i] == x);
            }
            if x == ks.last() {
                assert(ks[ks.len() - 1] == x);
            }
        }
    }
}

/// One command's effect on the launched list is to append its launches.
proof fn lemma_step_count(s: PlanState, c: MeshCommand)
    ensures
        command_step(s, c).2.len() == s.2.len() + launches_of(s.0, c),
        launches_of(s.0, c) >= 0,
{
    match c {
        MeshCommand::Create(k) => {},
        MeshCommand::Update(LodChunkUpdate::Split(sp)) => {
            let r = retire_in(s, sp.old_chunk);
            assert(r.0 =~= s.0.remove(sp.old_chunk));
            lemma_launch_all(r, sp.new_chunks@);
        },
        MeshCommand::Update(LodChunkUpdate::Merge(m)) => {
            lemma_retire_all(s, m.old_chunks@);
        },
    }
}

proof fn lemma_run_monotone(s: PlanState, cs: Seq<MeshCommand>, j: int)
    requires
        0 <= j <= cs.len(),
    ensures
        run_commands(s, cs.take(j)).2.len() <= run_commands(s, cs).2.len(),
    decreases cs.len() - j,
{
    if j < cs.len() {
        lemma_run_monotone(s, cs, j + 1);
        assert(cs.take(j + 1).drop_last() =~= cs.take(j));
        lemma_step_count(run_commands(s, cs.take(j)), cs[j]);
    } else {
        assert(cs.take(j) =~= cs);
    }
}

fn count_absent_exec(meshes: &ChunkMeshes, old_chunk: &LodChunkKey, ks: &Vec<LodChunkKey>) -> (r: usize)
    ensures
        r as int == count_absent(meshes.live().remove(*old_chunk), ks@),
{
    let mut cnt: usize = 0;
    let mut i: usize = 0;
    while i < ks.len()
        invariant
            0 <= i <= ks@.len(),
            cnt <= i,
            cnt as int == count_absent(meshes.live().remove(*old_chunk), ks@.take(i as int)),
        decreases ks@.len() - i,
    {
        assert(ks@.take(i + 1).drop_last() =~= ks@.take(i as int));
        if !(meshes.contains_key(&ks[i]) && ks[i] != *old_chunk) {
            cnt = cnt + 1;
        }
        i = i + 1;
    }
    assert(ks@.take(ks@.len() as int) =~= ks@);
    cnt
}

fn contains_key_exec(ks: &Vec<LodChunkKey>, k: &LodChunkKey) -> (r: bool)
    ensures
        r == ks@.contains(*k),
{
    let mut i: usize = 0;
    while i < ks.len()
        invariant
            0 <= i <= ks@.len(),
            forall|j: int| 0 <= j < i ==> ks@[j] != *k,
        decreases ks@.len() - i,
    {
        if ks[i] == *k {
            assert(ks@[i as int] == *k);
            return true;
        }
        i = i + 1;
    }
    false
}

/// The number of mesh generations that `c` would launch now.
fn launch_count(meshes: &ChunkMeshes, c: &MeshCommand) -> (r: usize)
    ensures
        r as int == launches_of(meshes.live(), *c),
{
    match c {
        MeshCommand::Create(k) => if meshes.contains_key(k) { 0 } else { 1 },
        MeshCommand::Update(LodChunkUpdate::Split(sp)) => count_absent_exec(meshes, &sp.old_chunk, &sp.new_chunks),
        MeshCommand::Update(LodChunkUpdate::Merge(m)) => {
            if meshes.contains_key(&m.new_chunk) && !contains_key_exec(&m.old_chunks, &m.new_chunk) { 0 } else { 1 }
        },
    }
}

/// Applies pending commands, freshest first, as long as each next command's
/// mesh generations fit in what is left of `budget`; applied commands leave the
/// queue. Superseded meshes are marked for fade-out. Returns the chunks whose
/// meshes must now be generated, in order: never more than `budget`, and the
/// whole queue is applied whenever its generations fit in the budget.
pub fn apply_mesh_commands(queue: &mut MeshCommandQueue, meshes: &mut ChunkMeshes, budget: usize) -> (r: Vec<LodChunkKey>)
    ensures
        ({
            let k = old(queue)@.len() - final(queue)@.len();
            let s0: PlanState = (old(meshes).live(), old(meshes).fading(), Seq::<LodChunkKey>::empty());
            let s = run_commands(s0, old(queue)@.take(k));
            &&& 0 <= k <= old(queue)@.len()
            &&& final(queue)@ == old(queue)@.skip(k)
            &&& final(meshes).live() == s.0
            &&& final(meshes).fading() == s.1
            &&& r@ == s.2
            &&& r@.len() <= budget
            &&& (k == old(queue)@.len() || run_commands(s0, old(queue)@.take(k + 1)).2.len() > budget)
            &&& (run_commands(s0, old(queue)@).2.len() <= budget ==> k == old(queue)@.len())
        }),
{
    let ghost q0 = queue@;
    let ghost s0: PlanState = (meshes.live(), meshes.fading(), Seq::<LodChunkKey>::empty());
    let mut out: Vec<LodChunkKey> = Vec::new();
    let n = queue.commands.len();
    let mut i: usize = 0;
    let mut full = false;
    while i < n && !full
        invariant
            n == q0.len(),
            queue@ == q0,
            0 <= i <= n,
            run_commands(s0, q0.take(i as int)) == (meshes.live(), meshes.fading(), out@),
            out@.len() <= budget,
            full ==> i < n && out@.len() + launches_of(meshes.live(), q0[i as int]) > budget,
        decreases n - i, (if full { 0int } else { 1int }),
    {
        let c = launch_count(meshes, &queue.commands[i]);
        if c > budget - out.len() {
            full = true;
        } else {
            assert(q0.take(i + 1).drop_last() =~= q0.take(i as int));
            proof {
                lemma_step_count(run_commands(s0, q0.take(i as int)), q0[i as int]);
            }
            apply_command(meshes, &queue.commands[i], &mut out);
            i = i + 1;
        }
    }
    proof {
        if i < n {
            assert(q0.take(i + 1).drop_last() =~= q0.take(i as int));
            lemma_step_count(run_commands(s0, q0.take(i as int)), q0[i as int]);
            lemma_run_monotone(s0, q0, i + 1);
        }
    }
    let mut j: usize = 0;
    while j < i
        invariant
            0 <= j <= i <= n,
            n == q0.len(),
            queue@ == q0.skip(j as int),
        decreases i - j,
    {
        queue.commands.pop_front();
        assert(q0.skip(j + 1) =~= q0.skip(j as int).subrange(1, q0.skip(j as int).len() as int));
        j = j + 1;
    }
    out
}

} // verus!
