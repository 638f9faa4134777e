//! What changes, runs of changes and logs of changes come to.

use crate::delta::{
    applied, borrowed_view, deltas_view, entries_after, entries_view, latest, log_state, merged,
    resolved, Delta, DeltaView, Log,
};
use crate::laws::law_next_change_applies;
use crate::order::{
    entries, greatest, is_greatest, lemma_entries, lemma_greatest, lemma_ordered_empty,
    lemma_same_map, ordered, owned, seconds, seqn_end, SequenceNumber,
};
use vstd::prelude::*;

verus! {

/// A change is known by its kind and by what it holds.
pub proof fn law_change_is_what_it_holds(delta: Delta)
    ensures
        match delta {
            Delta::Append(bytes) => delta@ matches DeltaView::Append(seen) && seen == bytes@,
            Delta::Truncate(n) => delta@ matches DeltaView::Truncate(seen) && seen == n,
            Delta::Reset => delta@ is Reset,
        },
{
}

/// A run of changes is known by its changes, one for one, and by their numbers where it has them.
pub proof fn law_run_is_what_it_holds(
    owned: Seq<Delta>,
    borrowed: Seq<&Delta>,
    numbered: Seq<(SequenceNumber, Delta)>,
)
    ensures
        deltas_view(owned).len() == owned.len(),
        forall|i: int| 0 <= i < owned.len() ==> #[trigger] deltas_view(owned)[i] == owned[i]@,
        borrowed_view(borrowed).len() == borrowed.len(),
        forall|i: int|
            0 <= i < borrowed.len() ==> #[trigger] borrowed_view(borrowed)[i] == borrowed[i]@,
        entries_view(numbered).len() == numbered.len(),
        forall|i: int|
            0 <= i < numbered.len() ==> (#[trigger] entries_view(numbered)[i]).0 == numbered[i].0
                && entries_view(numbered)[i].1 == numbered[i].1@,
{
}

/// What is appended comes behind the bytes that were there, and both stay as they are.
pub proof fn law_append_puts_bytes_behind(state: Seq<u8>, bytes: Seq<u8>)
    ensures
        ({
            let after = applied(state, DeltaView::Append(bytes));
            &&& after.len() == state.len() + bytes.len()
            &&& forall|i: int| 0 <= i < state.len() ==> #[trigger] after[i] == state[i]
            &&& forall|i: int|
                state.len() <= i < after.len() ==> #[trigger] after[i] == bytes[i - state.len()]
        }),
{
}

/// A state is cut to the given number of bytes where it has more, and the bytes that are left are
/// the first ones.
pub proof fn law_truncate_keeps_the_first_bytes(state: Seq<u8>, n: usize)
    ensures
        ({
            let after = applied(state, DeltaView::Truncate(n));
            &&& after.len() <= n
            &&& after.len() <= state.len()
            &&& after.len() == n || after.len() == state.len()
            &&& forall|i: int| 0 <= i < after.len() ==> #[trigger] after[i] == state[i]
        }),
{
}

/// Nothing is left after a reset.
pub proof fn law_reset_leaves_nothing(state: Seq<u8>)
    ensures
        applied(state, DeltaView::Reset).len() == 0,
{
}

/// No changes make no bytes. One more change at the end of a run appends to what the run resolves
/// to, cuts it, or drops it.
pub proof fn law_run_resolves_change_by_change(run: Seq<DeltaView>, delta: DeltaView)
    ensures
        run.len() == 0 ==> resolved(run).len() == 0,
        ({
            let before = resolved(run);
            let after = resolved(run.push(delta));
            match delta {
                DeltaView::Append(bytes) => after == before + bytes,
                DeltaView::Truncate(n) => {
                    &&& after.len() <= n
                    &&& after.len() == n || after.len() == before.len()
                    &&& after.is_prefix_of(before)
                },
                DeltaView::Reset => after.len() == 0,
            }
        }),
{
    assert(run.push(delta).drop_last() =~= run);
}

/// A log without entries stands for no bytes.
pub proof fn law_empty_log_has_no_bytes(log: Log)
    requires
        forall|k: SequenceNumber| !log.contains_key(k),
    ensures
        log_state(log).len() == 0,
{
    lemma_same_map(log, Map::empty());
    lemma_ordered_empty::<DeltaView>();
    assert(seconds(ordered(log)) =~= Seq::empty());
}

/// In a log, the change under the greatest number comes last: it appends to the state that the
/// others stand for, cuts it, or drops it.
pub proof fn law_greatest_number_comes_last(log: Log, last: SequenceNumber)
    requires
        log.contains_key(last),
        forall|k: SequenceNumber| #[trigger] log.contains_key(k) ==> k <= last,
    ensures
        ({
            let before = log_state(log.remove(last));
            let after = log_state(log);
            match log[last] {
                DeltaView::Append(bytes) => after == before + bytes,
                DeltaView::Truncate(n) => {
                    &&& after.len() <= n
                    &&& after.len() == n || after.len() == before.len()
                    &&& after.is_prefix_of(before)
                },
                DeltaView::Reset => after.len() == 0,
            }
        }),
{
    let others = log.remove(last);
    law_next_change_applies(others, last, log[last]);
    assert(others.insert(last, log[last]) =~= log);
}

/// Once changes have been written into a log it holds, under each number, the last of them that
/// has the number, and where none has it what it held before.
pub proof fn law_merged_log_holds_the_last_change(
    log: Log,
    new: Seq<(SequenceNumber, DeltaView)>,
    k: SequenceNumber,
)
    ensures
        forall|i: int|
            0 <= i < new.len() && (#[trigger] new[i]).0 == k && (forall|j: int|
                i < j < new.len() ==> (#[trigger] new[j]).0 != k) ==> merged(log, new).contains_key(
                k,
            ) && merged(log, new)[k] == new[i].1,
        (forall|i: int| 0 <= i < new.len() ==> (#[trigger] new[i]).0 != k) ==> {
            &&& merged(log, new).contains_key(k) <==> log.contains_key(k)
            &&& log.contains_key(k) ==> merged(log, new)[k] == log[k]
        },
    decreases new.len(),
{
    if new.len() > 0 {
        let rest = new.drop_last();
        law_merged_log_holds_the_last_change(log, rest, k);
        let all = merged(log, new);
        assert forall|i: int|
            0 <= i < new.len() && (#[trigger] new[i]).0 == k && (forall|j: int|
                i < j < new.len() ==> (#[trigger] new[j]).0 != k) implies all.contains_key(k)
            && all[k] == new[i].1 by {
            if i < rest.len() {
                assert(new[new.len() - 1].0 != k);
                assert(rest[i].0 == k);
                assert forall|j: int| i < j < rest.len() implies (#[trigger] rest[j]).0 != k by {
                    assert(new[j].0 != k);
                }
            }
        }
        if forall|i: int| 0 <= i < new.len() ==> (#[trigger] new[i]).0 != k {
            assert(new[new.len() - 1].0 != k);
            assert forall|i: int| 0 <= i < rest.len() implies (#[trigger] rest[i]).0 != k by {
                assert(new[i].0 != k);
            }
        }
    }
}

/// The entries of a map in a range of numbers go up, each is in the map, and none of the range is
/// left out.
pub proof fn law_entries_go_up_and_leave_none_out<V>(m: Map<SequenceNumber, V>, lo: int, hi: int)
    requires
        0 <= lo,
        hi <= 0x1_0000_0000,
    ensures
        forall|i: int, j: int|
            0 <= i < j < entries(m, lo, hi).len() ==> (#[trigger] entries(m, lo, hi)[i]).0 < (
            #[trigger] entries(m, lo, hi)[j]).0,
        forall|k: SequenceNumber, v: V|
            #[trigger] entries(m, lo, hi).contains((k, v)) <==> lo <= k < hi && m.contains_key(k)
                && m[k] == v,
{
    lemma_entries(m, lo, hi);
    let all = entries(m, lo, hi);
    assert forall|k: SequenceNumber, v: V| #[trigger] all.contains((k, v)) implies lo <= k < hi
        && m.contains_key(k) && m[k] == v by {
        let i = choose|i: int| 0 <= i < all.len() && all[i] == (k, v);
        assert(m.contains_key(all[i].0));
    }
}

/// All the entries of a map go up, each is in the map, and none is left out.
pub proof fn law_ordered_leaves_none_out<V>(m: Map<SequenceNumber, V>)
    ensures
        forall|i: int, j: int|
            0 <= i < j < ordered(m).len() ==> (#[trigger] ordered(m)[i]).0 < (#[trigger] ordered(
                m,
            )[j]).0,
        forall|k: SequenceNumber, v: V|
            #[trigger] ordered(m).contains((k, v)) <==> m.contains_key(k) && m[k] == v,
{
    law_entries_go_up_and_leave_none_out(m, 0, seqn_end());
}

/// What comes after a number is what has a greater number, in ascending order.
pub proof fn law_what_comes_after_has_a_greater_number(log: Log, seqn: SequenceNumber)
    ensures
        forall|i: int, j: int|
            0 <= i < j < entries_after(log, seqn).len() ==> (#[trigger] entries_after(
                log,
                seqn,
            )[i]).0 < (#[trigger] entries_after(log, seqn)[j]).0,
        forall|k: SequenceNumber, delta: DeltaView|
            #[trigger] entries_after(log, seqn).contains((k, delta)) <==> seqn < k
                && log.contains_key(k) && log[k] == delta,
{
    law_entries_go_up_and_leave_none_out(log, seqn + 1, seqn_end());
}

/// Borrowed entries are known by their numbers and by what they borrow.
pub proof fn law_borrowed_entries_are_what_they_borrow<V>(borrowed: Seq<(SequenceNumber, &V)>)
    ensures
        owned(borrowed).len() == borrowed.len(),
        forall|i: int|
            0 <= i < borrowed.len() ==> (#[trigger] owned(borrowed)[i]).0 == borrowed[i].0
                && owned(borrowed)[i].1 == *borrowed[i].1,
{
}

/// The second components of pairs are those of each pair, in place.
pub proof fn law_seconds_keep_their_places<V>(pairs: Seq<(SequenceNumber, V)>)
    ensures
        seconds(pairs).len() == pairs.len(),
        forall|i: int| 0 <= i < pairs.len() ==> #[trigger] seconds(pairs)[i] == pairs[i].1,
{
}

/// The greatest number of a map is in it and none is greater. Only the empty map has none.
pub proof fn law_greatest_is_the_greatest<V>(m: Map<SequenceNumber, V>)
    ensures
        greatest(m) is None <==> (forall|k: SequenceNumber| !m.contains_key(k)),
        greatest(m) matches Some(last) ==> m.contains_key(last) && (forall|k: SequenceNumber|
            #[trigger] m.contains_key(k) ==> k <= last),
{
    lemma_greatest(m);
    assert(is_greatest(m, greatest(m)));
    if let Some(last) = greatest(m) {
        assert(m.contains_key(last));
    }
}

/// The latest number of a log is in it and none is greater. That of the empty log is 0.
pub proof fn law_latest_is_the_greatest(log: Log)
    ensures
        forall|k: SequenceNumber| #[trigger] log.contains_key(k) ==> k <= latest(log),
        log.contains_key(latest(log)) || (latest(log) == 0 && forall|k: SequenceNumber|
            !log.contains_key(k)),
{
    law_greatest_is_the_greatest(log);
}

} // verus!
