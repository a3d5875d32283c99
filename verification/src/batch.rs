//! Block headers are passed on in batches of bounded size.

use vstd::prelude::*;

verus! {

/// The largest number of block headers that one message carries.
pub const MAX_HEADERS_PER_MESSAGE: usize = 818;

/// Takes the next batch from the front of the queue: `limit` items, or all
/// where there are fewer.
pub fn take_batch<T>(queue: &mut Vec<T>, limit: usize) -> (batch: Vec<T>)
    ensures
        batch@.len() == if old(queue)@.len() < limit {
            old(queue)@.len()
        } else {
            limit as nat
        },
        batch@ == old(queue)@.subrange(0, batch@.len() as int),
        final(queue)@ == old(queue)@.subrange(batch@.len() as int, old(queue)@.len() as int),
{
    let count = if queue.len() < limit {
        queue.len()
    } else {
        limit
    };
    let mut batch: Vec<T> = Vec::with_capacity(count);
    let mut i: usize = 0;
    assert(queue@ =~= old(queue)@.subrange(0, old(queue)@.len() as int));
    while i < count
        invariant
            i <= count <= old(queue)@.len(),
            batch@ == old(queue)@.subrange(0, i as int),
            queue@ == old(queue)@.subrange(i as int, old(queue)@.len() as int),
        decreases count - i,
    {
        let item = queue.remove(0);
        batch.push(item);
        proof {
            assert(batch@ =~= old(queue)@.subrange(0, i + 1));
            assert(queue@ =~= old(queue)@.subrange(i + 1, old(queue)@.len() as int));
        }
        i = i + 1;
    }
    batch
}

} // verus!
