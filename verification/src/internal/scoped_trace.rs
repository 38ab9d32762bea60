//! The stack of scoped traces: messages that a test attaches to the
//! assertions made while a scope is open.
//!
//! The stack is held oldest first. Opening a scope pushes its trace; closing
//! it takes out the newest trace with its id, wherever that trace stands.

use vstd::prelude::*;

verus! {

/// A scoped trace: its id, where it was opened and its message.
#[derive(Clone, Debug)]
pub struct TraceInfo {
    pub id: usize,
    pub file: String,
    pub line: u32,
    pub message: String,
}

/// The index of the newest trace with id `id` in `stack` (oldest first),
/// if any.
pub open spec fn newest_with_id(stack: Seq<TraceInfo>, id: usize) -> Option<int>
    decreases stack.len(),
{
    if stack.len() == 0 {
        None
    } else if stack.last().id == id {
        Some(stack.len() - 1)
    } else {
        newest_with_id(stack.drop_last(), id)
    }
}

/// Opens the scope of the trace `info`: puts it on top of `stack`.
pub fn push_trace(stack: &mut Vec<TraceInfo>, info: TraceInfo)
    ensures
        final(stack)@ == old(stack)@.push(info),
{
    stack.push(info);
}

/// Closing a scope undoes opening it: after a trace is pushed on a stack,
/// it is the newest trace with its id, and taking that one out gives the
/// stack back as it was.
pub proof fn law_closing_undoes_opening(stack: Seq<TraceInfo>, info: TraceInfo)
    ensures
        newest_with_id(stack.push(info), info.id) == Some(stack.len() as int),
        stack.push(info).remove(stack.len() as int) == stack,
{
    assert(stack.push(info).last() == info);
    assert(stack.push(info).remove(stack.len() as int) =~= stack);
}

/// Closes the scope of the trace with id `id`: takes the newest trace with
/// that id out of `stack` and keeps the others in order; leaves the stack
/// as it is when no trace has that id.
pub fn remove_trace(stack: &mut Vec<TraceInfo>, id: usize)
    ensures
        newest_with_id(old(stack)@, id) is None ==> final(stack)@ == old(stack)@,
        newest_with_id(old(stack)@, id) matches Some(k) ==> final(stack)@ == old(stack)@.remove(k),
{
    let ghost all = stack@;
    let mut i: usize = stack.len();
    assert(all.take(i as int) =~= all);
    while i > 0
        invariant
            stack@ == all,
            all == old(stack)@,
            i <= all.len(),
            newest_with_id(all, id) == newest_with_id(all.take(i as int), id),
        decreases i,
    {
        proof {
            assert(all.take(i as int).drop_last() =~= all.take(i - 1));
            assert(all.take(i as int).last() == all[i - 1]);
        }
        if stack[i - 1].id == id {
            assert(newest_with_id(all, id) == Some((i - 1) as int));
            stack.remove(i - 1);
            return;
        }
        i = i - 1;
    }
    assert(all.take(0) =~= Seq::<TraceInfo>::empty());
}

} // verus!
