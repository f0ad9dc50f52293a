//! Striking the prescribed degrees of freedom out of a system, and putting them back.
//!
//! A system has one slot per degree of freedom. `fixed` says of each slot whether its value
//! is prescribed. The reduced system keeps the free slots, in ascending order of their place
//! in the full system.

use crate::linalg::{within, without_column, without_row};
use vstd::prelude::*;

verus! {

/// Number of free slots.
pub open spec fn free_count(fixed: Seq<bool>) -> nat
    decreases fixed.len(),
{
    if fixed.len() == 0 {
        0
    } else {
        free_count(fixed.drop_last()) + if fixed.last() {
            0nat
        } else {
            1nat
        }
    }
}

/// The free slots in ascending order: entry `r` is the place in the full system of slot `r`
/// of the reduced system.
pub open spec fn free_indices(fixed: Seq<bool>) -> Seq<int>
    decreases fixed.len(),
{
    if fixed.len() == 0 {
        Seq::empty()
    } else if fixed.last() {
        free_indices(fixed.drop_last())
    } else {
        free_indices(fixed.drop_last()).push(fixed.len() - 1)
    }
}

/// Which slots a vector of boundary conditions prescribes.
pub open spec fn fixed_of<T>(conditions: Seq<Option<T>>) -> Seq<bool> {
    Seq::new(conditions.len(), |i: int| conditions[i] is Some)
}

/// The free entries of `full`, in order.
pub open spec fn reduced<T>(fixed: Seq<bool>, full: Seq<T>) -> Seq<T> {
    Seq::new(free_count(fixed), |r: int| full[free_indices(fixed)[r]])
}

/// The full vector that has the prescribed value in each prescribed slot and the entries of
/// `answer`, in order, in the free ones.
pub open spec fn expanded<T>(conditions: Seq<Option<T>>, answer: Seq<T>) -> Seq<T> {
    Seq::new(
        conditions.len(),
        |i: int|
            match conditions[i] {
                Some(value) => value,
                None => answer[free_count(fixed_of(conditions).take(i)) as int],
            },
    )
}

/// The slots of a square matrix that lie in a free row and a free column, renumbered by the
/// rank of that row and column among the free ones.
pub open spec fn reduced_entries(fixed: Seq<bool>, e: Map<(int, int), u64>) -> Map<
    (int, int),
    u64,
> {
    Map::new(
        |k: (int, int)|
            0 <= k.0 < free_count(fixed) && 0 <= k.1 < free_count(fixed) && e.contains_key(
                (free_indices(fixed)[k.0], free_indices(fixed)[k.1]),
            ),
        |k: (int, int)| e[(free_indices(fixed)[k.0], free_indices(fixed)[k.1])],
    )
}

/// What is left of `e` once the first `i` slots have been visited in ascending order and the
/// row and column of each prescribed one struck out, at the place to which the strikes
/// before it had moved them.
pub open spec fn struck(fixed: Seq<bool>, e: Map<(int, int), u64>, i: nat) -> Map<
    (int, int),
    u64,
>
    decreases i,
{
    if i == 0 {
        e
    } else {
        let before = struck(fixed, e, (i - 1) as nat);
        if fixed[i - 1] {
            let at = free_count(fixed.take(i - 1)) as int;
            without_column(without_row(before, at), at)
        } else {
            before
        }
    }
}

/// The place in the full system of slot `r` of the system in which the first `i` slots have
/// been visited.
pub open spec fn lifted(fixed: Seq<bool>, i: int, r: int) -> int {
    let kept = free_count(fixed.take(i)) as int;
    if r < kept {
        free_indices(fixed.take(i))[r]
    } else {
        r - kept + i
    }
}

/// Size of the system in which the first `i` slots have been visited.
pub open spec fn size_after(fixed: Seq<bool>, i: int) -> int {
    fixed.len() - i + free_count(fixed.take(i))
}

/// `struck` in closed form.
pub open spec fn partly_reduced(fixed: Seq<bool>, e: Map<(int, int), u64>, i: int) -> Map<
    (int, int),
    u64,
> {
    Map::new(
        |k: (int, int)|
            0 <= k.0 < size_after(fixed, i) && 0 <= k.1 < size_after(fixed, i) && e.contains_key(
                (lifted(fixed, i, k.0), lifted(fixed, i, k.1)),
            ),
        |k: (int, int)| e[(lifted(fixed, i, k.0), lifted(fixed, i, k.1))],
    )
}

/// One more slot visited: how count and indices of the free slots grow.
pub proof fn lemma_take_step(fixed: Seq<bool>, i: int)
    requires
        0 <= i < fixed.len(),
    ensures
        free_count(fixed.take(i + 1)) == free_count(fixed.take(i)) + if fixed[i] {
            0nat
        } else {
            1nat
        },
        free_indices(fixed.take(i + 1)) == if fixed[i] {
            free_indices(fixed.take(i))
        } else {
            free_indices(fixed.take(i)).push(i)
        },
{
    assert(fixed.take(i + 1).drop_last() =~= fixed.take(i));
    assert(fixed.take(i + 1).last() == fixed[i]);
}

/// The free indices are as many as the free slots, each is the place of a free slot, and
/// they ascend.
pub proof fn lemma_free_indices(fixed: Seq<bool>)
    ensures
        free_indices(fixed).len() == free_count(fixed),
        free_count(fixed) <= fixed.len(),
        forall|r: int|
            0 <= r < free_count(fixed) ==> 0 <= #[trigger] free_indices(fixed)[r] < fixed.len()
                && !fixed[free_indices(fixed)[r]],
        forall|r: int, s: int|
            0 <= r < s < free_count(fixed) ==> #[trigger] free_indices(fixed)[r]
                < #[trigger] free_indices(fixed)[s],
    decreases fixed.len(),
{
    if fixed.len() > 0 {
        lemma_free_indices(fixed.drop_last());
    }
}

/// The free slots among the first `i` are the first of all the free slots.
pub proof fn lemma_free_prefix(fixed: Seq<bool>, i: int)
    requires
        0 <= i <= fixed.len(),
    ensures
        free_count(fixed.take(i)) <= free_count(fixed),
        forall|r: int|
            0 <= r < free_count(fixed.take(i)) ==> #[trigger] free_indices(fixed.take(i))[r]
                == free_indices(fixed)[r],
    decreases fixed.len() - i,
{
    lemma_free_indices(fixed.take(i));
    if i == fixed.len() {
        assert(fixed.take(i) =~= fixed);
    } else {
        lemma_take_step(fixed, i);
        lemma_free_prefix(fixed, i + 1);
        lemma_free_indices(fixed.take(i + 1));
        assert forall|r: int| 0 <= r < free_count(fixed.take(i)) implies #[trigger] free_indices(
            fixed.take(i),
        )[r] == free_indices(fixed)[r] by {
            assert(free_indices(fixed.take(i))[r] == free_indices(fixed.take(i + 1))[r]);
        }
    }
}

/// A free slot stands, among the free slots, at the rank given by the number of free slots
/// before it.
pub proof fn lemma_rank(fixed: Seq<bool>, i: int)
    requires
        0 <= i < fixed.len(),
        !fixed[i],
    ensures
        free_count(fixed.take(i)) < free_count(fixed),
        free_indices(fixed)[free_count(fixed.take(i)) as int] == i,
{
    lemma_take_step(fixed, i);
    lemma_free_indices(fixed.take(i));
    lemma_free_prefix(fixed, i + 1);
    let rank = free_count(fixed.take(i)) as int;
    assert(free_indices(fixed.take(i + 1))[rank] == i);
}

/// Slot `r` of the reduced system comes after exactly `r` free slots of the full one.
pub proof fn lemma_rank_of_free_index(fixed: Seq<bool>, r: int)
    requires
        0 <= r < free_count(fixed),
    ensures
        0 <= free_indices(fixed)[r] < fixed.len(),
        free_count(fixed.take(free_indices(fixed)[r])) == r,
{
    lemma_free_indices(fixed);
    let i = free_indices(fixed)[r];
    lemma_rank(fixed, i);
    let s = free_count(fixed.take(i)) as int;
    if s < r {
        assert(free_indices(fixed)[s] < free_indices(fixed)[r]);
    } else if r < s {
        assert(free_indices(fixed)[r] < free_indices(fixed)[s]);
    }
}

/// Reducing a full vector that agrees with its boundary conditions and expanding the result
/// gives the vector back.
pub proof fn expand_inverts_reduce<T>(conditions: Seq<Option<T>>, full: Seq<T>)
    requires
        full.len() == conditions.len(),
        forall|i: int|
            0 <= i < conditions.len() && conditions[i] is Some ==> full[i] == conditions[i]->0,
    ensures
        expanded(conditions, reduced(fixed_of(conditions), full)) == full,
{
    let fixed = fixed_of(conditions);
    let back = expanded(conditions, reduced(fixed, full));
    assert forall|i: int| 0 <= i < full.len() implies back[i] == full[i] by {
        if conditions[i] is None {
            lemma_rank(fixed, i);
        }
    }
    assert(back =~= full);
}

/// Expanding an answer that has one entry per free slot and reducing the result gives the
/// answer back.
pub proof fn reduce_inverts_expand<T>(conditions: Seq<Option<T>>, answer: Seq<T>)
    requires
        answer.len() == free_count(fixed_of(conditions)),
    ensures
        reduced(fixed_of(conditions), expanded(conditions, answer)) == answer,
{
    let fixed = fixed_of(conditions);
    let full = expanded(conditions, answer);
    let again = reduced(fixed, full);
    assert forall|r: int| 0 <= r < answer.len() implies again[r] == answer[r] by {
        lemma_rank_of_free_index(fixed, r);
        lemma_free_indices(fixed);
    }
    assert(again =~= answer);
}

/// An expanded vector holds every prescribed value in its slot.
pub proof fn expanded_keeps_prescribed<T>(conditions: Seq<Option<T>>, answer: Seq<T>)
    ensures
        expanded(conditions, answer).len() == conditions.len(),
        forall|i: int|
            0 <= i < conditions.len() && conditions[i] is Some ==> expanded(
                conditions,
                answer,
            )[i] == conditions[i]->0,
{
}

/// Striking slot by slot gives the closed form.
pub proof fn lemma_struck(fixed: Seq<bool>, e: Map<(int, int), u64>, i: nat)
    requires
        i <= fixed.len(),
        within(e, fixed.len() as int, fixed.len() as int),
    ensures
        struck(fixed, e, i) == partly_reduced(fixed, e, i as int),
    decreases i,
{
    let n = fixed.len() as int;
    if i == 0 {
        assert(fixed.take(0) =~= Seq::<bool>::empty());
        assert(struck(fixed, e, i) =~= partly_reduced(fixed, e, 0));
    } else {
        let h = (i - 1) as int;
        lemma_struck(fixed, e, h as nat);
        lemma_take_step(fixed, h);
        lemma_free_indices(fixed.take(h));
        let before = partly_reduced(fixed, e, h);
        let at = free_count(fixed.take(h)) as int;
        if fixed[h] {
            let after = without_column(without_row(before, at), at);
            assert forall|r: int| 0 <= r implies #[trigger] lifted(fixed, h + 1, r) == lifted(
                fixed,
                h,
                if r < at {
                    r
                } else {
                    r + 1
                },
            ) by {}
            assert(after =~= partly_reduced(fixed, e, i as int));
        } else {
            assert forall|r: int| 0 <= r implies #[trigger] lifted(fixed, h + 1, r) == lifted(
                fixed,
                h,
                r,
            ) by {}
            assert(before =~= partly_reduced(fixed, e, i as int));
        }
    }
}

/// Once every slot has been visited, what is left is the reduced matrix, and it lies within
/// as many rows and columns as there are free slots.
pub proof fn lemma_struck_all(fixed: Seq<bool>, e: Map<(int, int), u64>)
    requires
        within(e, fixed.len() as int, fixed.len() as int),
    ensures
        struck(fixed, e, fixed.len()) == reduced_entries(fixed, e),
        within(reduced_entries(fixed, e), free_count(fixed) as int, free_count(fixed) as int),
{
    lemma_struck(fixed, e, fixed.len());
    assert(fixed.take(fixed.len() as int) =~= fixed);
    assert(partly_reduced(fixed, e, fixed.len() as int) =~= reduced_entries(fixed, e));
}

} // verus!
