//! Arithmetic of the circular region. A journal of `n` slots keeps its
//! superblock in slot 0; records go round the slots 1 to `n - 1`, and the
//! slot after `n - 1` is slot 1. Head and tail are record slots. The region
//! is empty where head and tail meet, and one record slot always stays
//! unused so that a full region can be told from an empty one.

use vstd::arithmetic::div_mod::{lemma_mod_add_multiples_vanish, lemma_small_mod};
use vstd::prelude::*;

verus! {

/// Whether `slot` is a record slot of a journal of `n` slots.
pub open spec fn is_record_slot(slot: int, n: int) -> bool {
    1 <= slot < n
}

/// The record slot `by` steps past `slot`, for a step of at most one lap:
/// `1 + (slot - 1 + by) mod (n - 1)`. Slot 0 is never stepped on.
pub open spec fn advance(slot: int, by: int, n: int) -> int {
    if slot + by >= n {
        slot + by - (n - 1)
    } else {
        slot + by
    }
}

/// Record slots between head and tail: the ones that hold records.
pub open spec fn used_slots(head: int, tail: int, n: int) -> int {
    if tail >= head {
        tail - head
    } else {
        (n - 1) - head + tail
    }
}

/// Record slots that can still be handed out.
pub open spec fn available_slots(head: int, tail: int, n: int) -> int {
    n - 2 - used_slots(head, tail, n)
}

/// The accounting of the ring, counted over the `n - 1` record slots: the
/// region is empty exactly where head meets tail, the slots in use are
/// `(tail - head) mod (n - 1)`, the slots available are
/// `(head - tail - 1) mod (n - 1)`, and the two add up to `n - 2`.
pub proof fn lemma_ring_accounting(head: int, tail: int, n: int)
    requires
        n >= 2,
        is_record_slot(head, n),
        is_record_slot(tail, n),
    ensures
        (head == tail) <==> used_slots(head, tail, n) == 0,
        (head == tail) <==> available_slots(head, tail, n) == n - 2,
        used_slots(head, tail, n) == (tail - head) % (n - 1),
        available_slots(head, tail, n) == (head - tail - 1) % (n - 1),
        0 <= used_slots(head, tail, n) <= n - 2,
        0 <= available_slots(head, tail, n) <= n - 2,
        used_slots(head, tail, n) + available_slots(head, tail, n) == n - 2,
        advance(head, used_slots(head, tail, n), n) == tail,
{
    let m = n - 1;
    if tail >= head {
        lemma_small_mod((tail - head) as nat, m as nat);
    } else {
        lemma_mod_add_multiples_vanish(tail - head, m);
        lemma_small_mod((m + tail - head) as nat, m as nat);
    }
    if head > tail {
        lemma_small_mod((head - tail - 1) as nat, m as nat);
    } else {
        lemma_mod_add_multiples_vanish(head - tail - 1, m);
        lemma_small_mod((m + head - tail - 1) as nat, m as nat);
    }
}

/// Handing out one slot: the slot handed out is the tail, the tail moves on
/// by one record slot, and one slot less is available. It can be done
/// exactly while a slot is available, which is while the record slot after
/// the tail is not the head.
pub proof fn lemma_ring_allocate(head: int, tail: int, n: int)
    requires
        n >= 2,
        is_record_slot(head, n),
        is_record_slot(tail, n),
    ensures
        is_record_slot(advance(tail, 1, n), n),
        advance(tail, 1, n) == (if tail == n - 1 {
            1
        } else {
            tail + 1
        }),
        (advance(tail, 1, n) == head) <==> available_slots(head, tail, n) == 0,
        available_slots(head, tail, n) > 0 ==> available_slots(head, advance(tail, 1, n), n)
            == available_slots(head, tail, n) - 1,
{
}

/// Stepping on stays among the record slots, is counting modulo their
/// number, and stepping twice is stepping once by the sum.
pub proof fn lemma_advance(slot: int, by: int, n: int)
    requires
        n >= 2,
        is_record_slot(slot, n),
        0 <= by <= n - 1,
    ensures
        is_record_slot(advance(slot, by, n), n),
        advance(slot, by, n) == 1 + (slot - 1 + by) % (n - 1),
        forall|more: int|
            0 <= more && by + more <= n - 1 ==> #[trigger] advance(advance(slot, by, n), more, n)
                == advance(slot, by + more, n),
{
    let m = n - 1;
    let x = slot - 1 + by;
    if x >= m {
        lemma_mod_add_multiples_vanish(x - m, m);
        lemma_small_mod((x - m) as nat, m as nat);
    } else {
        lemma_small_mod(x as nat, m as nat);
    }
}

/// Steps of different lengths, each short of a lap, lead to different
/// slots.
pub proof fn lemma_advance_injective(slot: int, a: int, b: int, n: int)
    requires
        n >= 2,
        is_record_slot(slot, n),
        0 <= a < b <= n - 2,
    ensures
        advance(slot, a, n) != advance(slot, b, n),
{
}

} // verus!
