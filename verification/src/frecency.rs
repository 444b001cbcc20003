//! The integer side of the ranking: the recency class of a project, the
//! weight of a class, and the ranking of positions by score keys. A score is
//! the weight times one plus the natural logarithm of one plus the access
//! count; that arithmetic is floating point and is done by the caller, who
//! hands in for each project an integer that orders as its score does.

use vstd::prelude::*;
use vstd::seq_lib::seq_to_set_is_finite;
use vstd::set_lib::{lemma_int_range, lemma_subset_equality, set_int_range};

verus! {

/// Seconds in an hour.
pub const HOUR: i64 = 3600;

/// Seconds in a day.
pub const DAY: i64 = 86400;

/// Seconds in a week.
pub const WEEK: i64 = 604800;

/// How long ago a project was last used, in the four classes that weigh its score.
#[derive(Clone, Copy, Debug, PartialEq, Eq, Structural)]
pub enum Recency {
    /// Less than an hour ago (or in the future).
    WithinHour,
    /// At least an hour, less than a day ago.
    WithinDay,
    /// At least a day, less than a week ago.
    WithinWeek,
    /// A week ago or longer.
    Older,
}

/// The class of an age given in seconds.
pub open spec fn recency_of_age(age: int) -> Recency {
    if age < HOUR {
        Recency::WithinHour
    } else if age < DAY {
        Recency::WithinDay
    } else if age < WEEK {
        Recency::WithinWeek
    } else {
        Recency::Older
    }
}

/// Twice the weight of a class: 8, 4, 2, 1 stand for the weights 4, 2, 1 and one half.
pub open spec fn weight_halves_of(recency: Recency) -> int {
    match recency {
        Recency::WithinHour => 8,
        Recency::WithinDay => 4,
        Recency::WithinWeek => 2,
        Recency::Older => 1,
    }
}

impl Recency {
    /// The class of a project last used at `last_accessed`, seen from the instant `now`
    /// (both in seconds since the epoch). The age is the signed difference.
    pub fn between(now: i64, last_accessed: i64) -> (r: Recency)
        ensures
            r == recency_of_age(now - last_accessed),
    {
        let age: i128 = now as i128 - last_accessed as i128;
        if age < HOUR as i128 {
            Recency::WithinHour
        } else if age < DAY as i128 {
            Recency::WithinDay
        } else if age < WEEK as i128 {
            Recency::WithinWeek
        } else {
            Recency::Older
        }
    }

    /// Twice the recency weight of the class.
    pub fn weight_halves(&self) -> (w: u8)
        ensures
            w == weight_halves_of(*self),
    {
        match self {
            Recency::WithinHour => 8,
            Recency::WithinDay => 4,
            Recency::WithinWeek => 2,
            Recency::Older => 1,
        }
    }
}

/// The recency weight never grows with age, and it drops at each class boundary.
pub proof fn lemma_weight_falls_with_age(younger: int, older: int)
    requires
        younger <= older,
    ensures
        weight_halves_of(recency_of_age(younger)) >= weight_halves_of(recency_of_age(older)),
        recency_of_age(younger) != recency_of_age(older) ==> weight_halves_of(
            recency_of_age(younger),
        ) > weight_halves_of(recency_of_age(older)),
{
}

/// Position `a` comes before position `b` in a ranking by `keys`: its key is greater,
/// or the keys are equal and `a` is the earlier position.
pub open spec fn ranks_before(keys: Seq<u64>, a: int, b: int) -> bool {
    keys[a] > keys[b] || (keys[a] == keys[b] && a < b)
}

/// `order` lists every position of `keys` once, by descending key,
/// positions with equal keys in the order in which they stand in `keys`.
pub open spec fn is_ranking(keys: Seq<u64>, order: Seq<int>) -> bool {
    &&& order.len() == keys.len()
    &&& forall|i: int| 0 <= i < order.len() ==> 0 <= #[trigger] order[i] < keys.len()
    &&& forall|i: int, j: int|
        0 <= i < j < order.len() ==> ranks_before(keys, #[trigger] order[i], #[trigger] order[j])
}

/// The positions held in a vector of indices.
pub open spec fn positions(order: Seq<usize>) -> Seq<int> {
    order.map_values(|i: usize| i as int)
}

/// The positions of `keys` by descending key; equal keys keep their order.
pub fn rank_by_key(keys: &Vec<u64>) -> (order: Vec<usize>)
    ensures
        is_ranking(keys@, positions(order@)),
{
    let mut order: Vec<usize> = Vec::new();
    let mut n: usize = 0;
    while n < keys.len()
        invariant
            n <= keys.len(),
            is_ranking(keys@.take(n as int), positions(order@)),
            forall|q: int| 0 <= q < order.len() ==> #[trigger] order@[q] < n,
        decreases keys.len() - n,
    {
        let key = keys[n];
        let mut p: usize = 0;
        while p < order.len() && keys[order[p]] >= key
            invariant
                p <= order.len(),
                n < keys.len(),
                key == keys@[n as int],
                is_ranking(keys@.take(n as int), positions(order@)),
                forall|q: int| 0 <= q < order.len() ==> #[trigger] order@[q] < n,
                forall|q: int| 0 <= q < p ==> keys@[#[trigger] order@[q] as int] >= key,
            decreases order.len() - p,
        {
            p += 1;
        }
        proof {
            let before = positions(order@);
            let after = positions(order@.insert(p as int, n));
            let old_keys = keys@.take(n as int);
            let new_keys = keys@.take(n + 1);
            assert forall|i: int| 0 <= i < after.len() implies 0 <= #[trigger] after[i]
                < new_keys.len() by {
                if i < p {
                    assert(after[i] == before[i]);
                } else if i > p {
                    assert(after[i] == before[i - 1]);
                }
            }
            assert forall|i: int, j: int| 0 <= i < j < after.len() implies ranks_before(
                new_keys,
                #[trigger] after[i],
                #[trigger] after[j],
            ) by {
                if j < p {
                    assert(ranks_before(old_keys, before[i], before[j]));
                } else if j == p {
                    assert(before[i] == order@[i] as int);
                } else if i < p {
                    assert(ranks_before(old_keys, before[i], before[j - 1]));
                } else if i == p {
                    if j - 1 > p {
                        assert(ranks_before(old_keys, before[p as int], before[j - 1]));
                    }
                } else {
                    assert(ranks_before(old_keys, before[i - 1], before[j - 1]));
                }
            }
        }
        order.insert(p, n);
        n += 1;
    }
    order
}

/// In a ranking a greater key comes first, and of two equal keys the one
/// that stood first.
pub proof fn lemma_ranking_order(keys: Seq<u64>, order: Seq<int>, i: int, j: int)
    requires
        is_ranking(keys, order),
        0 <= i < order.len(),
        0 <= j < order.len(),
        ranks_before(keys, order[i], order[j]),
    ensures
        i < j,
{
    if j < i {
        assert(ranks_before(keys, order[j], order[i]));
    }
}

/// A ranking lists every position, and none twice.
pub proof fn lemma_ranking_lists_each_once(keys: Seq<u64>, order: Seq<int>)
    requires
        is_ranking(keys, order),
    ensures
        order.no_duplicates(),
        forall|position: int| 0 <= position < keys.len() ==> order.contains(position),
{
    assert forall|i: int, j: int|
        0 <= i < order.len() && 0 <= j < order.len() && i != j implies order[i] != order[j] by {
        if i < j {
            assert(ranks_before(keys, order[i], order[j]));
        } else {
            assert(ranks_before(keys, order[j], order[i]));
        }
    }
    let listed = order.to_set();
    let all = set_int_range(0, keys.len() as int);
    order.unique_seq_to_set();
    seq_to_set_is_finite(order);
    lemma_int_range(0, keys.len() as int);
    assert forall|v: int| listed.contains(v) implies all.contains(v) by {
        let i = choose|i: int| 0 <= i < order.len() && order[i] == v;
        assert(0 <= order[i] < keys.len());
    }
    lemma_subset_equality(listed, all);
    assert forall|position: int| 0 <= position < keys.len() implies order.contains(position) by {
        assert(all.contains(position));
    }
}

/// A sequence of keys has one ranking only.
pub proof fn lemma_ranking_unique(keys: Seq<u64>, a: Seq<int>, b: Seq<int>)
    requires
        is_ranking(keys, a),
        is_ranking(keys, b),
    ensures
        a == b,
{
    assert forall|k: int| 0 <= k < a.len() implies a[k] == b[k] by {
        lemma_same_up_to(keys, a, b, k);
    }
}

proof fn lemma_same_up_to(keys: Seq<u64>, a: Seq<int>, b: Seq<int>, k: int)
    requires
        is_ranking(keys, a),
        is_ranking(keys, b),
        0 <= k < keys.len(),
    ensures
        a[k] == b[k],
    decreases k,
{
    assert forall|m: int| 0 <= m < k implies a[m] == b[m] by {
        lemma_same_up_to(keys, a, b, m);
    }
    if a[k] != b[k] {
        lemma_ranking_lists_each_once(keys, a);
        lemma_ranking_lists_each_once(keys, b);
        assert(b.contains(a[k]) && a.contains(b[k]));
        let m = choose|m: int| 0 <= m < b.len() && b[m] == a[k];
        let n = choose|n: int| 0 <= n < a.len() && a[n] == b[k];
        // Neither value stands before position `k`: there the two rankings agree,
        // and neither lists a position twice.
        if m < k {
            assert(ranks_before(keys, a[m], a[k]));
        }
        if n < k {
            assert(ranks_before(keys, b[n], b[k]));
        }
    }
}

} // verus!
