//! What a playfield remembers of its clears: the queue of one tick, and the
//! counts that a score is made of.

use vstd::prelude::*;
use crate::data::BLOCKS;

verus! {

/// Clear and chain state of one playfield.
pub struct Clear {
    /// Identifiers of the blocks found to match in this tick, each once, in
    /// the order in which the scan met them.
    pub clear_queue: Vec<u32>,
    /// Number of blocks of the current batch that have their timing.
    pub combo_counter: u32,
    /// Depth of the current chain.
    pub chain: u32,
    /// Greatest depth a chain has reached in this round.
    pub last_chain: u32,
    /// Blocks cleared in this round so far.
    pub blocks_cleared: u32,
}

/// What a clear batch reports: the chain depth it reached, the number of
/// blocks in it, and the blocks cleared in the round so far.
#[derive(Clone, Copy, Debug, PartialEq, Eq, Structural)]
pub struct ClearEvent {
    pub chain: u32,
    pub combo: u32,
    pub blocks_cleared: u32,
}

/// Whether `q` can be a clear queue: it names cells only, and none twice.
pub open spec fn queue_valid(q: Seq<u32>) -> bool {
    &&& q.no_duplicates()
    &&& forall|k: int| 0 <= k < q.len() ==> #[trigger] q[k] < BLOCKS
}

/// A valid queue is no longer than the playfield has cells.
pub proof fn lemma_valid_queue_is_short(q: Seq<u32>)
    requires
        queue_valid(q),
    ensures
        q.len() <= BLOCKS,
{
    let cells: Set<u32> = Set::new(|id: u32| id < BLOCKS);
    let below: Set<int> = Set::new(|i: int| 0 <= i < BLOCKS);
    vstd::set_lib::lemma_int_range(0, BLOCKS as int);
    assert(below =~= vstd::set_lib::set_int_range(0, BLOCKS as int));
    assert(cells =~= below.map(|i: int| i as u32)) by {
        assert forall|id: u32| cells.contains(id) implies below.map(|i: int| i as u32).contains(
            id,
        ) by {
            assert(below.contains(id as int));
        }
    }
    below.lemma_map_finite(|i: int| i as u32);
    vstd::set_lib::lemma_map_size_bound(below, cells, |i: int| i as u32);
    q.unique_seq_to_set();
    assert(q.to_set().subset_of(cells)) by {
        assert forall|id: u32| q.to_set().contains(id) implies cells.contains(id) by {
            let k = choose|k: int| 0 <= k < q.len() && q[k] == id;
            assert(q[k] < BLOCKS);
        }
    }
    vstd::set_lib::lemma_len_subset(q.to_set(), cells);
}

impl Clear {
    /// The queue names cells only, and none twice.
    pub open spec fn wf(&self) -> bool {
        queue_valid(self.clear_queue@)
    }

    /// The state at the start of a round: nothing queued or cleared, and the
    /// chain at its lowest depth.
    pub open spec fn is_fresh(&self) -> bool {
        &&& self.clear_queue@ == Seq::<u32>::empty()
        &&& self.combo_counter == 0
        &&& self.chain == 1
        &&& self.last_chain == 1
        &&& self.blocks_cleared == 0
    }

    /// The chain is no deeper than the greatest depth on record, and that is
    /// one at least.
    pub open spec fn chain_recorded(&self) -> bool {
        self.chain <= self.last_chain && 1 <= self.last_chain
    }

    /// Whether a clear batch of any size can be counted without a counter
    /// running over.
    pub open spec fn has_headroom(&self) -> bool {
        &&& self.chain < u32::MAX
        &&& self.blocks_cleared <= u32::MAX - BLOCKS
    }

    /// Makes the state of a new round.
    pub fn new() -> (c: Clear)
        ensures
            c.is_fresh(),
            c.wf(),
            c.has_headroom(),
    {
        Clear {
            clear_queue: Vec::new(),
            combo_counter: 0,
            chain: 1,
            last_chain: 1,
            blocks_cleared: 0,
        }
    }

    /// Puts the state back to the start of a round.
    pub fn reset(&mut self)
        ensures
            final(self).is_fresh(),
            final(self).wf(),
            final(self).has_headroom(),
    {
        self.clear_queue.clear();
        self.combo_counter = 0;
        self.chain = 1;
        self.last_chain = 1;
        self.blocks_cleared = 0;
    }

    /// Tests whether the queue names cells only, and none twice.
    pub fn is_wf(&self) -> (r: bool)
        ensures
            r == self.wf(),
    {
        let n: usize = self.clear_queue.len();
        let mut k: usize = 0;
        while k < n
            invariant
                k <= n,
                n == self.clear_queue@.len(),
                forall|i: int| 0 <= i < k ==> #[trigger] self.clear_queue@[i] < BLOCKS,
                forall|i: int, j: int|
                    0 <= i < j < k ==> self.clear_queue@[i] != self.clear_queue@[j],
            decreases n - k,
        {
            let id: u32 = self.clear_queue[k];
            if id as usize >= BLOCKS {
                return false;
            }
            let mut j: usize = 0;
            while j < k
                invariant
                    j <= k,
                    k < n,
                    n == self.clear_queue@.len(),
                    id == self.clear_queue@[k as int],
                    forall|i: int| 0 <= i < j ==> self.clear_queue@[i] != id,
                decreases k - j,
            {
                if self.clear_queue[j] == id {
                    return false;
                }
                j += 1;
            }
            k += 1;
        }
        true
    }

    /// Tests whether the queue holds `id`.
    pub fn holds(&self, id: u32) -> (r: bool)
        ensures
            r == self.clear_queue@.contains(id),
    {
        let n: usize = self.clear_queue.len();
        let mut k: usize = 0;
        while k < n
            invariant
                k <= n,
                n == self.clear_queue@.len(),
                forall|i: int| 0 <= i < k ==> self.clear_queue@[i] != id,
            decreases n - k,
        {
            if self.clear_queue[k] == id {
                return true;
            }
            k += 1;
        }
        false
    }

    /// Tests whether a clear batch of any size can be counted.
    pub fn can_count(&self) -> (r: bool)
        ensures
            r == self.has_headroom(),
    {
        self.chain < u32::MAX && self.blocks_cleared <= u32::MAX - (BLOCKS as u32)
    }
}

impl Default for Clear {
    fn default() -> (c: Clear)
        ensures
            c.is_fresh(),
            c.wf(),
            c.has_headroom(),
    {
        Clear::new()
    }
}

} // verus!
