use vstd::prelude::*;

verus! {

/// The source of the identifiers handed to points and lines.
///
/// Identifiers are handed out in increasing order, starting from zero, and
/// wrap around after `u32::MAX` as an atomic `fetch_add` does.
pub struct IdCounter {
    next: u32,
}

/// The counter value that follows `n`.
pub open spec fn next_id(n: u32) -> u32 {
    if n == u32::MAX { 0 } else { (n + 1) as u32 }
}

/// The counter value after `k` identifiers were handed out from `start`.
pub open spec fn advance(start: u32, k: nat) -> u32
    decreases k,
{
    if k == 0 {
        start
    } else {
        next_id(advance(start, (k - 1) as nat))
    }
}

impl IdCounter {
    /// The identifier that the next call of `get_id` hands out.
    pub closed spec fn peek(&self) -> u32 {
        self.next
    }

    /// A counter whose first identifier is zero.
    pub fn new() -> (res: IdCounter)
        ensures
            res.peek() == 0,
    {
        IdCounter { next: 0 }
    }
}

/// Hands out the current identifier and advances the counter by one.
pub fn get_id(counter: &mut IdCounter) -> (id: u32)
    ensures
        id == old(counter).peek(),
        final(counter).peek() == next_id(old(counter).peek()),
{
    let id = counter.next;
    counter.next = id.wrapping_add(1);
    proof {
        assert(id.wrapping_add(1) == next_id(id)) by (bit_vector);
    }
    id
}

} // verus!
