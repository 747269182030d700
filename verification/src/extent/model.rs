//! The mathematical model of the bitmap: a sequence of booleans, `true` for
//! an allocated block, and what first-fit placement means on it.

use vstd::prelude::*;

verus! {

/// How many bits of `bits` are clear.
pub open spec fn count_free(bits: Seq<bool>) -> nat
    decreases bits.len(),
{
    if bits.len() == 0 {
        0
    } else {
        count_free(bits.drop_last()) + if bits.last() {
            0nat
        } else {
            1nat
        }
    }
}

/// Whether a maximal run of clear bits begins at `i`.
pub open spec fn run_starts_at(bits: Seq<bool>, i: int) -> bool {
    &&& 0 <= i < bits.len()
    &&& !bits[i]
    &&& (i == 0 || bits[i - 1])
}

/// How many maximal runs of clear bits `bits` holds.
pub open spec fn count_free_runs(bits: Seq<bool>) -> nat
    decreases bits.len(),
{
    if bits.len() == 0 {
        0
    } else {
        count_free_runs(bits.drop_last()) + if run_starts_at(bits, bits.len() - 1) {
            1nat
        } else {
            0nat
        }
    }
}

/// The window `[start, start + len)` lies inside `bits` and every bit in it
/// is clear.
pub open spec fn run_is_free(bits: Seq<bool>, start: int, len: int) -> bool {
    &&& 0 <= start
    &&& start + len <= bits.len()
    &&& forall|i: int| start <= i < start + len ==> !#[trigger] bits[i]
}

/// The window `[start, start + len)` lies inside `bits` and every bit in it
/// is set.
pub open spec fn run_is_allocated(bits: Seq<bool>, start: int, len: int) -> bool {
    &&& 0 <= start
    &&& start + len <= bits.len()
    &&& forall|i: int| start <= i < start + len ==> #[trigger] bits[i]
}

/// No free window of `len` bits lies inside `[lo, hi)`.
pub open spec fn no_free_run(bits: Seq<bool>, lo: int, hi: int, len: int) -> bool {
    forall|s: int| lo <= s && s + len <= hi ==> !#[trigger] run_is_free(bits, s, len)
}

/// `start` is the lowest position at which a free window of `len` bits lies
/// inside `[lo, hi)`.
pub open spec fn first_free_run(bits: Seq<bool>, lo: int, hi: int, len: int, start: int) -> bool {
    &&& lo <= start
    &&& start + len <= hi
    &&& run_is_free(bits, start, len)
    &&& forall|s: int| lo <= s < start ==> !#[trigger] run_is_free(bits, s, len)
}

/// Where the scan begins: `hint` reduced into the bitmap.
pub open spec fn scan_origin(bits: Seq<bool>, hint: int) -> int {
    if bits.len() == 0 {
        0
    } else {
        hint % (bits.len() as int)
    }
}

/// First-fit placement. The scan runs from the origin to the end of the
/// bitmap and then from block 0 up to the origin; a window never straddles
/// the end of the bitmap nor the origin. `start` is where the first free
/// window of `len` bits met on that way begins.
pub open spec fn first_fit(bits: Seq<bool>, hint: int, len: int, start: int) -> bool {
    let origin = scan_origin(bits, hint);
    ||| first_free_run(bits, origin, bits.len() as int, len, start)
    ||| (no_free_run(bits, origin, bits.len() as int, len) && first_free_run(
        bits,
        0,
        origin,
        len,
        start,
    ))
}

/// The scan from `hint` meets no free window of `len` bits.
pub open spec fn no_fit(bits: Seq<bool>, hint: int, len: int) -> bool {
    let origin = scan_origin(bits, hint);
    no_free_run(bits, origin, bits.len() as int, len) && no_free_run(bits, 0, origin, len)
}

/// `bits` with every bit of `[start, start + len)` replaced by `value`.
pub open spec fn with_range(bits: Seq<bool>, start: int, len: int, value: bool) -> Seq<bool> {
    Seq::new(
        bits.len(),
        |i: int|
            if start <= i < start + len {
                value
            } else {
                bits[i]
            },
    )
}

/// A bitmap of `n` clear bits.
pub open spec fn all_free(n: nat) -> Seq<bool> {
    Seq::new(n, |i: int| false)
}

/// The clear bits number at most the length.
pub proof fn lemma_count_free_bound(bits: Seq<bool>)
    ensures
        count_free(bits) <= bits.len(),
    decreases bits.len(),
{
    if bits.len() > 0 {
        lemma_count_free_bound(bits.drop_last());
    }
}

/// In an all-free bitmap every bit counts.
pub proof fn lemma_count_free_all_free(n: nat)
    ensures
        count_free(all_free(n)) == n,
    decreases n,
{
    if n > 0 {
        assert(all_free(n).drop_last() =~= all_free((n - 1) as nat));
        lemma_count_free_all_free((n - 1) as nat);
    }
}

/// Flipping one bit moves the count of clear bits by one.
pub proof fn lemma_count_free_update(bits: Seq<bool>, i: int, value: bool)
    requires
        0 <= i < bits.len(),
    ensures
        count_free(bits.update(i, value)) + (if value { 1int } else { 0int }) == count_free(bits) + (if bits[i] { 1int } else { 0int }),
    decreases bits.len(),
{
    let updated = bits.update(i, value);
    if i == bits.len() - 1 {
        assert(updated.drop_last() =~= bits.drop_last());
    } else {
        assert(updated.drop_last() =~= bits.drop_last().update(i, value));
        lemma_count_free_update(bits.drop_last(), i, value);
    }
}

/// Replacing a prefix of a window is the same as replacing one bit less and
/// then the next bit.
pub proof fn lemma_with_range_step(bits: Seq<bool>, start: int, len: int, value: bool)
    requires
        0 <= start,
        0 <= len,
        start + len < bits.len(),
    ensures
        with_range(bits, start, len + 1, value) == with_range(bits, start, len, value).update(
            start + len,
            value,
        ),
        with_range(bits, start, 0, value) == bits,
{
    assert(with_range(bits, start, len + 1, value) =~= with_range(bits, start, len, value).update(
        start + len,
        value,
    ));
    assert(with_range(bits, start, 0, value) =~= bits);
}

/// Two first-fit placements of one request are one.
pub proof fn lemma_first_fit_unique(bits: Seq<bool>, hint: int, len: int, a: int, b: int)
    requires
        first_fit(bits, hint, len, a),
        first_fit(bits, hint, len, b),
    ensures
        a == b,
{
    let origin = scan_origin(bits, hint);
    let n = bits.len() as int;
    if first_free_run(bits, origin, n, len, a) {
        if first_free_run(bits, origin, n, len, b) {
            if a < b {
                assert(!run_is_free(bits, a, len));
            } else if b < a {
                assert(!run_is_free(bits, b, len));
            }
        } else {
            assert(!run_is_free(bits, a, len));
        }
    } else {
        if first_free_run(bits, origin, n, len, b) {
            assert(!run_is_free(bits, b, len));
        } else {
            if a < b {
                assert(!run_is_free(bits, a, len));
            } else if b < a {
                assert(!run_is_free(bits, b, len));
            }
        }
    }
}

/// A request either has a placement or has none, never both.
pub proof fn lemma_fit_excludes_no_fit(bits: Seq<bool>, hint: int, len: int, start: int)
    requires
        first_fit(bits, hint, len, start),
    ensures
        !no_fit(bits, hint, len),
{
    assert(run_is_free(bits, start, len));
}

} // verus!
