//! Summation of `u32` values that refuses the largest value and any overflow.
use vstd::prelude::*;

verus! {

/// The mathematical sum of a sequence.
pub open spec fn seq_sum(s: Seq<u32>) -> int
    decreases s.len(),
{
    if s.len() == 0 {
        0
    } else {
        seq_sum(s.drop_last()) + s.last()
    }
}

/// Whether every value lies below `u32::MAX`.
pub open spec fn all_below_max(s: Seq<u32>) -> bool {
    forall|i: int| 0 <= i < s.len() ==> #[trigger] s[i] < u32::MAX
}

proof fn lemma_prefix_sum_le(s: Seq<u32>, n: int)
    requires
        0 <= n <= s.len(),
    ensures
        seq_sum(s.subrange(0, n)) <= seq_sum(s),
    decreases s.len(),
{
    if n < s.len() {
        assert(s.drop_last() =~= s.subrange(0, s.len() - 1));
        assert(s.subrange(0, n) =~= s.drop_last().subrange(0, n));
        lemma_prefix_sum_le(s.drop_last(), n);
    } else {
        assert(s.subrange(0, n) =~= s);
    }
}

/// The sum of `list`, or `None` when an item equals `u32::MAX` or the sum does not fit in
/// a `u32`.
pub fn sum(list: &[u32]) -> (r: Option<u32>)
    ensures
        r == (if all_below_max(list@) && seq_sum(list@) <= u32::MAX {
            Some(seq_sum(list@) as u32)
        } else {
            None
        }),
{
    let mut total: u32 = 0;
    let mut i: usize = 0;
    while i < list.len()
        invariant
            0 <= i <= list@.len(),
            total == seq_sum(list@.subrange(0, i as int)),
            forall|j: int| 0 <= j < i ==> #[trigger] list@[j] < u32::MAX,
        decreases list@.len() - i,
    {
        let item = list[i];
        if item >= u32::MAX {
            assert(!all_below_max(list@));
            return None;
        }
        assert(list@.subrange(0, i + 1).drop_last() =~= list@.subrange(0, i as int));
        match total.checked_add(item) {
            Some(t) => total = t,
            None => {
                proof { lemma_prefix_sum_le(list@, i + 1); }
                return None;
            },
        }
        i = i + 1;
    }
    assert(list@.subrange(0, i as int) =~= list@);
    Some(total)
}

} // verus!
