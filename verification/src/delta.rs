//! Changes to a byte state, and the numbered log that holds them.

use crate::order::{
    entries, entries_from, greatest, greatest_seqn, is_greatest, lemma_entries_map_values,
    lemma_greatest, lemma_ordered_empty, ordered, owned, seconds, seqn_end, SequenceNumber,
};
use std::collections::BTreeMap;
use vstd::prelude::*;
use vstd::std_specs::iter::IteratorSpec;

verus! {

broadcast use {vstd::laws_cmp::group_laws_cmp, vstd::std_specs::btree::group_btree_axioms};

/// A change to the state.
#[derive(Debug, Hash, PartialEq, Eq)]
pub enum Delta {
    /// Puts the bytes at the end.
    Append(Vec<u8>),
    /// Keeps at most the given number of leading bytes.
    Truncate(usize),
    /// Drops all bytes.
    Reset,
}

/// What a [`Delta`] stands for.
pub enum DeltaView {
    Append(Seq<u8>),
    Truncate(usize),
    Reset,
}

impl View for Delta {
    type V = DeltaView;

    open spec fn view(&self) -> DeltaView {
        match *self {
            Delta::Append(bytes) => DeltaView::Append(bytes@),
            Delta::Truncate(n) => DeltaView::Truncate(n),
            Delta::Reset => DeltaView::Reset,
        }
    }
}

impl Clone for Delta {
    fn clone(&self) -> (copy: Self)
        ensures
            copy@ == self@,
    {
        match self {
            Delta::Append(bytes) => {
                let copied = bytes.clone();
                assert(copied@ =~= bytes@);
                Delta::Append(copied)
            },
            Delta::Truncate(n) => Delta::Truncate(*n),
            Delta::Reset => Delta::Reset,
        }
    }
}

/// The state that `delta` makes of `state`.
pub open spec fn applied(state: Seq<u8>, delta: DeltaView) -> Seq<u8> {
    match delta {
        DeltaView::Append(bytes) => state + bytes,
        DeltaView::Truncate(n) => if n < state.len() {
            state.take(n as int)
        } else {
            state
        },
        DeltaView::Reset => Seq::empty(),
    }
}

/// The state that `deltas`, applied one after the other, make of the empty state.
pub open spec fn resolved(deltas: Seq<DeltaView>) -> Seq<u8>
    decreases deltas.len(),
{
    if deltas.len() == 0 {
        Seq::empty()
    } else {
        applied(resolved(deltas.drop_last()), deltas.last())
    }
}

/// What borrowed changes stand for.
pub open spec fn borrowed_view(deltas: Seq<&Delta>) -> Seq<DeltaView> {
    deltas.map_values(|d: &Delta| d@)
}

/// What changes stand for.
pub open spec fn deltas_view(deltas: Seq<Delta>) -> Seq<DeltaView> {
    deltas.map_values(|d: Delta| d@)
}

/// What numbered changes stand for.
pub open spec fn entries_view(deltas: Seq<(SequenceNumber, Delta)>) -> Seq<
    (SequenceNumber, DeltaView),
> {
    deltas.map_values(|e: (SequenceNumber, Delta)| (e.0, e.1@))
}

/// Applies a run of changes to the empty state.
pub fn resolve<'a>(deltas: impl Iterator<Item = &'a Delta>) -> (state: Vec<u8>)
    requires
        deltas.obeys_prophetic_iter_laws(),
        deltas.decrease() is Some,
    ensures
        state@ == resolved(borrowed_view(deltas.remaining())),
{
    let mut buffer: Vec<u8> = Vec::new();
    let mut rest = deltas;
    let ghost mut taken: nat = 0;
    loop
        invariant
            rest.obeys_prophetic_iter_laws(),
            rest.decrease() is Some,
            taken <= deltas.remaining().len(),
            rest.remaining() == deltas.remaining().skip(taken as int),
            buffer@ == resolved(borrowed_view(deltas.remaining().take(taken as int))),
        ensures
            taken == deltas.remaining().len(),
            buffer@ == resolved(borrowed_view(deltas.remaining().take(taken as int))),
        decreases rest.decrease()->0,
    {
        match rest.next() {
            None => {
                break;
            },
            Some(delta) => {
                proof {
                    let before = borrowed_view(deltas.remaining().take(taken as int));
                    let done = borrowed_view(deltas.remaining().take(taken as int + 1));
                    assert(done.drop_last() =~= before);
                    taken = taken + 1;
                }
                match delta {
                    Delta::Append(bytes) => buffer.extend_from_slice(bytes),
                    Delta::Truncate(n) => buffer.truncate(*n),
                    Delta::Reset => buffer.clear(),
                }
            },
        }
    }
    assert(deltas.remaining().take(taken as int) =~= deltas.remaining());
    buffer
}

/// Makes one change of a run of changes.
pub fn merge<'a>(deltas: impl Iterator<Item = &'a Delta>) -> (delta: Delta)
    requires
        deltas.obeys_prophetic_iter_laws(),
        deltas.decrease() is Some,
    ensures
        delta@ == DeltaView::Append(resolved(borrowed_view(deltas.remaining()))),
{
    Delta::Append(resolve(deltas))
}

/// Changes under their sequence numbers.
pub type Log = Map<SequenceNumber, DeltaView>;

/// The log with `new` written into it, one entry after the other.
pub open spec fn merged(log: Log, new: Seq<(SequenceNumber, DeltaView)>) -> Log
    decreases new.len(),
{
    if new.len() == 0 {
        log
    } else {
        merged(log, new.drop_last()).insert(new.last().0, new.last().1)
    }
}

/// The last change that `new` has for a number, if it has any.
pub open spec fn last_for(new: Seq<(SequenceNumber, DeltaView)>, seqn: SequenceNumber) -> Option<
    DeltaView,
>
    decreases new.len(),
{
    if new.len() == 0 {
        None
    } else if new.last().0 == seqn {
        Some(new.last().1)
    } else {
        last_for(new.drop_last(), seqn)
    }
}

/// What a log holds under each number once `new` has been written into it.
pub proof fn lemma_merged(log: Log, new: Seq<(SequenceNumber, DeltaView)>, seqn: SequenceNumber)
    ensures
        merged(log, new).contains_key(seqn) == (log.contains_key(seqn) || last_for(
            new,
            seqn,
        ) is Some),
        last_for(new, seqn) matches Some(delta) ==> merged(log, new)[seqn] == delta,
        last_for(new, seqn) is None && log.contains_key(seqn) ==> merged(log, new)[seqn]
            == log[seqn],
    decreases new.len(),
{
    if new.len() > 0 {
        lemma_merged(log, new.drop_last(), seqn);
    }
}

/// Whether `new` has at most one change for each number.
pub open spec fn distinct(new: Seq<(SequenceNumber, DeltaView)>) -> bool {
    forall|i: int, j: int|
        0 <= i < j < new.len() ==> (#[trigger] new[i]).0 != (#[trigger] new[j]).0
}

/// Where there is one change for a number, it is the last.
pub proof fn lemma_last_for(new: Seq<(SequenceNumber, DeltaView)>, seqn: SequenceNumber)
    requires
        distinct(new),
    ensures
        forall|delta: DeltaView|
            last_for(new, seqn) == Some(delta) <==> #[trigger] new.contains((seqn, delta)),
    decreases new.len(),
{
    if new.len() > 0 {
        let rest = new.drop_last();
        lemma_last_for(rest, seqn);
        assert forall|delta: DeltaView|
            last_for(new, seqn) == Some(delta) <==> #[trigger] new.contains((seqn, delta)) by {
            if new.contains((seqn, delta)) {
                let i = choose|i: int| 0 <= i < new.len() && new[i] == (seqn, delta);
                if i < rest.len() {
                    assert(rest[i] == (seqn, delta));
                    assert(rest.contains((seqn, delta)));
                    assert(new[i].0 != new[new.len() - 1].0);
                }
            }
            if last_for(new, seqn) == Some(delta) {
                if new.last().0 == seqn {
                    assert(new[new.len() - 1] == (seqn, delta));
                } else {
                    assert(rest.contains((seqn, delta)));
                    let i = choose|i: int| 0 <= i < rest.len() && rest[i] == (seqn, delta);
                    assert(new[i] == (seqn, delta));
                }
            }
        }
    }
}

/// The state that a log stands for: its changes, applied in the order of their numbers.
pub open spec fn log_state(log: Log) -> Seq<u8> {
    resolved(seconds(ordered(log)))
}

/// The greatest sequence number of a log, 0 for the empty one.
pub open spec fn latest(log: Log) -> SequenceNumber {
    match greatest(log) {
        Some(seqn) => seqn,
        None => 0,
    }
}

/// The entries of a log that come after `seqn`.
pub open spec fn entries_after(log: Log, seqn: SequenceNumber) -> Seq<(SequenceNumber, DeltaView)> {
    entries(log, seqn + 1, seqn_end())
}

/// A log of changes, each under its sequence number.
pub struct Deltas {
    tree: BTreeMap<SequenceNumber, Delta>,
}

impl View for Deltas {
    type V = Log;

    closed spec fn view(&self) -> Log {
        self.tree@.map_values(|d: Delta| d@)
    }
}

impl Default for Deltas {
    fn default() -> (log: Self)
        ensures
            log@ == Map::<SequenceNumber, DeltaView>::empty(),
            latest(log@) == 0,
            log_state(log@) == Seq::<u8>::empty(),
    {
        let log = Deltas { tree: BTreeMap::new() };
        assert(log@ =~= Map::empty());
        proof {
            lemma_ordered_empty::<DeltaView>();
            assert(seconds(ordered(log@)) =~= Seq::empty());
        }
        log
    }
}

impl Deltas {
    /// The empty log.
    pub fn new() -> (log: Self)
        ensures
            log@ == Map::<SequenceNumber, DeltaView>::empty(),
            latest(log@) == 0,
            log_state(log@) == Seq::<u8>::empty(),
    {
        Self::default()
    }

    /// The entries from the sequence number `from` on, in ascending order.
    pub(crate) fn entries_from(&self, from: SequenceNumber) -> (found: Vec<
        (SequenceNumber, &Delta),
    >)
        ensures
            found@.map_values(|e: (SequenceNumber, &Delta)| (e.0, e.1@)) == entries(
                self@,
                from as int,
                seqn_end(),
            ),
    {
        let found = entries_from(&self.tree, from);
        proof {
            let view = |d: Delta| d@;
            lemma_entries_map_values(self.tree@, view, from as int, seqn_end());
            assert(found@.map_values(|e: (SequenceNumber, &Delta)| (e.0, e.1@)) =~= owned(
                found@,
            ).map_values(|e: (SequenceNumber, Delta)| (e.0, view(e.1))));
        }
        found
    }

    /// Computes the state that the log stands for.
    pub fn resolve(&self) -> (state: Vec<u8>)
        ensures
            state@ == log_state(self@),
    {
        let all = self.entries_from(0);
        let ghost numbered = all@.map_values(|e: (SequenceNumber, &Delta)| (e.0, e.1@));
        let mut changes: Vec<&Delta> = Vec::new();
        for i in 0..all.len()
            invariant
                changes@.len() == i,
                forall|j: int| 0 <= j < i ==> changes@[j] == all@[j].1,
        {
            changes.push(all[i].1);
        }
        assert(borrowed_view(changes@) =~= seconds(numbered));
        resolve(changes.into_iter())
    }

    /// The changes after `seqn`, in the order of their numbers.
    pub fn since(&self, seqn: &SequenceNumber) -> (changes: Vec<Delta>)
        requires
            *seqn < SequenceNumber::MAX,
        ensures
            deltas_view(changes@) == seconds(entries_after(self@, *seqn)),
    {
        let found = self.entries_from(*seqn + 1);
        let ghost numbered = found@.map_values(|e: (SequenceNumber, &Delta)| (e.0, e.1@));
        let mut changes: Vec<Delta> = Vec::new();
        for i in 0..found.len()
            invariant
                changes@.len() == i,
                forall|j: int| 0 <= j < i ==> changes@[j]@ == found@[j].1@,
        {
            changes.push(found[i].1.clone());
        }
        assert(deltas_view(changes@) =~= seconds(numbered));
        changes
    }

    /// The changes after `seqn`, each with its number, in the order of their numbers.
    pub fn entries_since(&self, seqn: &SequenceNumber) -> (changes: Vec<(SequenceNumber, Delta)>)
        requires
            *seqn < SequenceNumber::MAX,
        ensures
            entries_view(changes@) == entries_after(self@, *seqn),
    {
        let found = self.entries_from(*seqn + 1);
        let ghost numbered = found@.map_values(|e: (SequenceNumber, &Delta)| (e.0, e.1@));
        let mut changes: Vec<(SequenceNumber, Delta)> = Vec::new();
        for i in 0..found.len()
            invariant
                changes@.len() == i,
                forall|j: int|
                    0 <= j < i ==> changes@[j].0 == found@[j].0 && changes@[j].1@ == found@[j].1@,
        {
            changes.push((found[i].0, found[i].1.clone()));
        }
        assert(entries_view(changes@) =~= numbered);
        changes
    }

    /// The greatest sequence number of the log, 0 where it is empty.
    pub fn latest_seqn(&self) -> (seqn: SequenceNumber)
        ensures
            seqn == latest(self@),
    {
        proof {
            lemma_greatest(self@);
        }
        let found = greatest_seqn(&self.tree);
        assert(is_greatest(self@, found)) by {
            assert(forall|k: SequenceNumber| #[trigger]
                self@.contains_key(k) <==> self.tree@.contains_key(k));
        }
        match found {
            Some(seqn) => seqn,
            None => 0,
        }
    }

    /// Puts a change under `seq`, in place of the one that is there.
    pub fn insert(&mut self, seq: SequenceNumber, delta: Delta)
        ensures
            final(self)@ == old(self)@.insert(seq, delta@),
    {
        self.tree.insert(seq, delta);
        assert(self@ =~= old(self)@.insert(seq, delta@));
    }

    /// Puts changes under their numbers, one after the other.
    pub fn insert_many(&mut self, deltas: Vec<(SequenceNumber, Delta)>)
        ensures
            final(self)@ == merged(old(self)@, entries_view(deltas@)),
    {
        for e in it: deltas
            invariant
                it.seq() == deltas@,
                self@ == merged(old(self)@, entries_view(it.seq().take(it.index()))),
        {
            proof {
                let new = entries_view(it.seq().take(it.index() + 1));
                assert(new.drop_last() =~= entries_view(it.seq().take(it.index())));
            }
            self.insert(e.0, e.1);
        }
        assert(deltas@.take(deltas@.len() as int) =~= deltas@);
    }
}

impl Clone for Deltas {
    fn clone(&self) -> (copy: Self)
        ensures
            copy@ == self@,
    {
        Deltas { tree: self.tree.clone() }
    }
}

impl From<Vec<(SequenceNumber, Delta)>> for Deltas {
    fn from(deltas: Vec<(SequenceNumber, Delta)>) -> (log: Self)
        ensures
            log@ == merged(Map::empty(), entries_view(deltas@)),
    {
        let mut this = Self::default();
        this.insert_many(deltas);
        this
    }
}

impl vstd::std_specs::convert::FromSpecImpl<Vec<(SequenceNumber, Delta)>> for Deltas {
    open spec fn obeys_from_spec() -> bool {
        false
    }

    open spec fn from_spec(deltas: Vec<(SequenceNumber, Delta)>) -> Self {
        arbitrary()
    }
}

} // verus!
