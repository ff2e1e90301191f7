//! What is read back from a file of fixed-size records.

use vstd::prelude::*;
use crate::relational::Free;

verus! {

/// Which of `chunk_count` stored chunks are read back as records when the
/// free list of the table has the runs `free_runs`. The reader looks at
/// slot 0 of the first run for every chunk, so either every chunk is read
/// (the first run starts at 0) or none is.
pub fn present_slots(free_runs: &Vec<Free>, chunk_count: usize) -> (r: Vec<bool>)
    requires
        free_runs@.len() >= 1,
    ensures
        r@ == Seq::new(chunk_count as nat, |i: int| free_runs@[0].start == 0),
{
    let mut list: Vec<bool> = Vec::new();
    let mut free_index: usize = 0;
    let curr_index: u16 = 0;
    let mut free = free_runs[free_index];
    let mut c: usize = 0;
    while c < chunk_count
        invariant
            c <= chunk_count,
            free_runs@.len() >= 1,
            free == free_runs@[0],
            free_index == 0,
            curr_index == 0,
            list@ == Seq::new(c as nat, |i: int| free_runs@[0].start == 0),
        decreases chunk_count - c,
    {
        if free.start <= curr_index && free.end >= curr_index {
            list.push(true);
        } else if free.start > curr_index {
            list.push(false);
        } else {
            free_index = free_index + 1;
            free = free_runs[free_index];
        }
        c = c + 1;
        assert(list@ =~= Seq::new(c as nat, |i: int| free_runs@[0].start == 0));
    }
    list
}

} // verus!
