//! The shared worker-activity slots: one boolean per worker, true while the
//! worker is scanning directories taken since its last frontier pop.

use vstd::prelude::*;

verus! {

/// Records whether worker `thread_id` is currently working.  A slot index
/// outside the vector (a worker that has not registered itself yet) leaves
/// the slots unchanged.
pub fn set_state(states: &mut Vec<bool>, thread_id: usize, working: bool)
    ensures
        thread_id < old(states)@.len() ==> final(states)@ == old(states)@.update(
            thread_id as int,
            working,
        ),
        thread_id >= old(states)@.len() ==> final(states)@ == old(states)@,
{
    if thread_id < states.len() {
        states.set(thread_id, working);
    }
}

/// True exactly when some worker's slot is marked working.  Workers poll this
/// to detect termination: once no slot is true, no scan is in flight and no
/// new directories can appear.
pub fn is_someone_working(states: &Vec<bool>) -> (r: bool)
    ensures
        r == exists|i: int| 0 <= i < states@.len() && states@[i],
{
    let mut idx: usize = 0;
    while idx < states.len()
        invariant
            idx <= states@.len(),
            forall|i: int| 0 <= i < idx ==> !states@[i],
        decreases states@.len() - idx,
    {
        if states[idx] {
            proof {
                assert(states@[idx as int]);
            }
            return true;
        }
        idx += 1;
    }
    false
}

} // verus!
