//! Dropping repeats from a list while the first of each stays in place.

use vstd::prelude::*;

verus! {

/// The entries without repeats: of equal entries the first stays, and what
/// stays keeps its order.
pub open spec fn first_occurrences<A>(entries: Seq<A>) -> Seq<A>
    decreases entries.len(),
{
    if entries.len() == 0 {
        Seq::empty()
    } else {
        let before = first_occurrences(entries.drop_last());
        if before.contains(entries.last()) {
            before
        } else {
            before.push(entries.last())
        }
    }
}

/// Whether `x` occurs in `entries` before the first occurrence of `y`.
pub open spec fn occurs_before_first<A>(entries: Seq<A>, x: A, y: A) -> bool {
    exists|a: int, b: int|
        #![trigger entries[a], entries[b]]
        {
            &&& 0 <= a < b < entries.len()
            &&& entries[a] == x
            &&& entries[b] == y
            &&& !entries.take(b).contains(y)
        }
}

/// What `first_occurrences` keeps: every value of the list once and no other
/// value, in the order in which the values first occur. For two values that
/// are kept, the earlier one occurs in the list before the first occurrence
/// of the later one.
pub proof fn lemma_first_occurrences<A>(entries: Seq<A>)
    ensures
        first_occurrences(entries).no_duplicates(),
        forall|x: A| first_occurrences(entries).contains(x) <==> entries.contains(x),
        forall|i: int, j: int|
            0 <= i < j < first_occurrences(entries).len() ==> #[trigger] occurs_before_first(
                entries,
                first_occurrences(entries)[i],
                first_occurrences(entries)[j],
            ),
    decreases entries.len(),
{
    let kept = first_occurrences(entries);
    if entries.len() > 0 {
        let shorter = entries.drop_last();
        let before = first_occurrences(shorter);
        let last = entries.last();
        lemma_first_occurrences(shorter);
        assert forall|x: A| kept.contains(x) implies entries.contains(x) by {
            let k = choose|k: int| 0 <= k < kept.len() && kept[k] == x;
            if k < before.len() {
                assert(before[k] == x);
                assert(before.contains(x));
                assert(shorter.contains(x));
                let a = choose|a: int| 0 <= a < shorter.len() && shorter[a] == x;
                assert(entries[a] == x);
            } else {
                assert(entries[entries.len() - 1] == x);
            }
        }
        assert forall|x: A| entries.contains(x) implies kept.contains(x) by {
            let a = choose|a: int| 0 <= a < entries.len() && entries[a] == x;
            if a < shorter.len() {
                assert(shorter[a] == x);
                assert(shorter.contains(x));
                assert(before.contains(x));
                let k = choose|k: int| 0 <= k < before.len() && before[k] == x;
                assert(kept[k] == x);
            } else if before.contains(last) {
                let k = choose|k: int| 0 <= k < before.len() && before[k] == last;
                assert(kept[k] == x);
            } else {
                assert(kept[kept.len() - 1] == x);
            }
        }
        assert forall|i: int, j: int| 0 <= i < j < kept.len() implies #[trigger] occurs_before_first(
            entries,
            kept[i],
            kept[j],
        ) by {
            if j < before.len() {
                assert(occurs_before_first(shorter, before[i], before[j]));
                let (a, b) = choose|a: int, b: int|
                    #![trigger shorter[a], shorter[b]]
                    {
                        &&& 0 <= a < b < shorter.len()
                        &&& shorter[a] == before[i]
                        &&& shorter[b] == before[j]
                        &&& !shorter.take(b).contains(before[j])
                    };
                assert(entries.take(b) == shorter.take(b));
                assert(entries[a] == kept[i] && entries[b] == kept[j]);
            } else {
                assert(!shorter.contains(last));
                let b = entries.len() - 1;
                assert(before[i] == kept[i]);
                assert(before.contains(kept[i]));
                assert(shorter.contains(kept[i]));
                let a = choose|a: int| 0 <= a < shorter.len() && shorter[a] == kept[i];
                assert(entries.take(b) == shorter);
                assert(entries[a] == kept[i] && entries[b] == kept[j]);
            }
        }
    }
}

} // verus!
