use vstd::prelude::*;
use std::collections::VecDeque;
use crate::geom::Point3i;
use crate::voxel::Voxel;

verus! {

/// Chunk generation tasks launched per frame and per worker thread.
pub const CHUNK_TASKS_PER_THREAD: usize = 40;

/// Pending work on level-0 chunks, keyed in chunk units.
#[derive(Clone, Debug, PartialEq, Eq)]
pub enum ChunkCommand {
    Generate(Point3i),
    Edit(Point3i, Vec<Voxel>),
    Remove(Point3i),
}

/// Chunk commands waiting to be applied, oldest last.
pub struct ChunkCommandQueue {
    commands: VecDeque<ChunkCommand>,
}

impl View for ChunkCommandQueue {
    type V = Seq<ChunkCommand>;

    closed spec fn view(&self) -> Seq<ChunkCommand> {
        self.commands@
    }
}

pub open spec fn is_generate(c: ChunkCommand) -> bool {
    c is Generate
}

/// Number of generation commands in `s`.
pub open spec fn count_generates(s: Seq<ChunkCommand>) -> int
    decreases s.len(),
{
    if s.len() == 0 {
        0
    } else {
        count_generates(s.drop_last()) + if is_generate(s.last()) { 1int } else { 0int }
    }
}

pub proof fn lemma_count_generates_bounds(s: Seq<ChunkCommand>)
    ensures
        0 <= count_generates(s) <= s.len(),
    decreases s.len(),
{
    if s.len() > 0 {
        lemma_count_generates_bounds(s.drop_last());
    }
}

/// Budget of chunk generation tasks for one frame.
pub fn max_chunk_creations_per_frame(thread_num: usize) -> (r: usize)
    requires
        thread_num <= usize::MAX / CHUNK_TASKS_PER_THREAD,
    ensures
        r == CHUNK_TASKS_PER_THREAD * thread_num,
{
    CHUNK_TASKS_PER_THREAD * thread_num
}

impl Default for ChunkCommandQueue {
    fn default() -> (r: ChunkCommandQueue)
        ensures
            r@ == Seq::<ChunkCommand>::empty(),
    {
        ChunkCommandQueue::new()
    }
}

impl ChunkCommandQueue {
    pub fn new() -> (r: ChunkCommandQueue)
        ensures
            r@ == Seq::<ChunkCommand>::empty(),
    {
        ChunkCommandQueue { commands: VecDeque::new() }
    }

    pub fn enqueue(&mut self, command: ChunkCommand)
        ensures
            final(self)@ == seq![command] + old(self)@,
    {
        self.commands.push_front(command);
    }

    pub fn is_empty(&self) -> (r: bool)
        ensures
            r == (self@.len() == 0),
    {
        self.commands.len() == 0
    }

    pub fn len(&self) -> (r: usize)
        ensures
            r == self@.len(),
    {
        self.commands.len()
    }

    /// Takes the commands of this frame, oldest first: all of them, or as many
    /// as end with the `budget`-th generation command. No more than `budget`
    /// generations are taken; fewer only when the queue runs out.
    pub fn take_batch(&mut self, budget: usize) -> (r: Vec<ChunkCommand>)
        ensures
            ({
                let n = old(self)@.len();
                let k = r@.len();
                &&& k <= n
                &&& final(self)@ == old(self)@.take(n - k)
                &&& forall|j: int| 0 <= j < k ==> #[trigger] r@[j] == old(self)@[n - 1 - j]
                &&& count_generates(r@) <= budget
                &&& (k == n || count_generates(r@) == budget)
                &&& (count_generates(old(self)@) < budget ==> k == n)
            }),
    {
        let ghost q0 = self.commands@;
        let n = self.commands.len();
        let mut batch: Vec<ChunkCommand> = Vec::new();
        let mut gens: usize = 0;
        while gens < budget && self.commands.len() > 0
            invariant
                n == q0.len(),
                batch@.len() <= n,
                self.commands@ == q0.take(n - batch@.len()),
                forall|j: int| 0 <= j < batch@.len() ==> #[trigger] batch@[j] == q0[n - 1 - j],
                gens == count_generates(batch@),
                gens <= budget,
                gens + count_generates(self.commands@) == count_generates(q0),
            decreases self.commands@.len(),
        {
            let ghost before = self.commands@;
            let c = self.commands.pop_back().unwrap();
            assert(self.commands@ =~= q0.take(n - batch@.len() - 1));
            assert(before.drop_last() =~= self.commands@);
            let ghost b0 = batch@;
            let g = match c {
                ChunkCommand::Generate(_) => true,
                _ => false,
            };
            batch.push(c);
            assert(batch@.drop_last() =~= b0);
            if g {
                gens = gens + 1;
            }
        }
        proof {
            lemma_count_generates_bounds(self.commands@);
            if count_generates(q0) < budget {
                assert(self.commands@.len() == 0);
            }
        }
        batch
    }
}

} // verus!
