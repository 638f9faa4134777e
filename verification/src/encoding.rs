//! What changes and logs feed into a checksum.

use crate::delta::{entries_view, merged, Delta, DeltaView, Deltas, Log};
use crate::digest::{
    bytes_encoding, crc32, crc32_of, lemma_bytes_first, lemma_length_first, lemma_native_bytes_len,
    lemma_native_bytes_tell_apart, lemma_split, length_encoding, native_bytes, span, Encode,
};
use crate::order::{ordered, SequenceNumber};
use vstd::prelude::*;

verus! {

/// How a change is fed into a checksum: its kind, then what it holds.
pub open spec fn delta_encoding(delta: DeltaView) -> Seq<u8> {
    match delta {
        DeltaView::Append(bytes) => length_encoding(0) + bytes_encoding(bytes),
        DeltaView::Truncate(n) => length_encoding(1) + length_encoding(n as nat),
        DeltaView::Reset => length_encoding(2),
    }
}

/// How an entry of a log is fed: its number, then its change.
pub open spec fn entry_encoding(entry: (SequenceNumber, DeltaView)) -> Seq<u8> {
    native_bytes(entry.0 as nat, 4) + delta_encoding(entry.1)
}

/// How a run of entries is fed: one after the other.
pub open spec fn entries_encoding(entries: Seq<(SequenceNumber, DeltaView)>) -> Seq<u8>
    decreases entries.len(),
{
    if entries.len() == 0 {
        Seq::empty()
    } else {
        entries_encoding(entries.drop_last()) + entry_encoding(entries.last())
    }
}

/// How a log is fed: the number of its entries, then the entries in ascending order.
pub open spec fn log_encoding(log: Log) -> Seq<u8> {
    length_encoding(ordered(log).len()) + entries_encoding(ordered(log))
}

/// The checksum of a log.
pub open spec fn log_checksum(log: Log) -> u32 {
    crc32_of(log_encoding(log))
}

/// Whether the length of what a change appends fits a word. That of a [`Delta`] always does.
pub open spec fn delta_fits(delta: DeltaView) -> bool {
    delta matches DeltaView::Append(bytes) ==> bytes.len() <= usize::MAX
}

/// Whether the number of a log's entries, and the length of what each of them appends, fits a
/// word. Those of a [`Deltas`] always do.
pub open spec fn log_fits(log: Log) -> bool {
    &&& ordered(log).len() <= usize::MAX
    &&& forall|k: SequenceNumber| #[trigger] log.contains_key(k) ==> delta_fits(log[k])
}

/// Changes are told apart by how they are fed, whatever follows.
proof fn lemma_delta_first(a: DeltaView, r: Seq<u8>, b: DeltaView, t: Seq<u8>)
    requires
        delta_fits(a),
        delta_fits(b),
        delta_encoding(a) + r == delta_encoding(b) + t,
    ensures
        a == b,
        r == t,
{
    let (kind_a, body_a): (nat, Seq<u8>) = match a {
        DeltaView::Append(bytes) => (0, bytes_encoding(bytes)),
        DeltaView::Truncate(n) => (1, length_encoding(n as nat)),
        DeltaView::Reset => (2, Seq::empty()),
    };
    let (kind_b, body_b): (nat, Seq<u8>) = match b {
        DeltaView::Append(bytes) => (0, bytes_encoding(bytes)),
        DeltaView::Truncate(n) => (1, length_encoding(n as nat)),
        DeltaView::Reset => (2, Seq::empty()),
    };
    assert(delta_encoding(a) + r =~= length_encoding(kind_a) + (body_a + r));
    assert(delta_encoding(b) + t =~= length_encoding(kind_b) + (body_b + t));
    lemma_length_first(kind_a, body_a + r, kind_b, body_b + t);
    match (a, b) {
        (DeltaView::Append(x), DeltaView::Append(y)) => {
            lemma_bytes_first(x, r, y, t);
        },
        (DeltaView::Truncate(x), DeltaView::Truncate(y)) => {
            lemma_length_first(x as nat, r, y as nat, t);
        },
        _ => {
            assert(body_a + r =~= r);
            assert(body_b + t =~= t);
        },
    }
}

/// Entries are told apart by how they are fed, whatever follows.
proof fn lemma_entry_first(
    a: (SequenceNumber, DeltaView),
    r: Seq<u8>,
    b: (SequenceNumber, DeltaView),
    t: Seq<u8>,
)
    requires
        delta_fits(a.1),
        delta_fits(b.1),
        entry_encoding(a) + r == entry_encoding(b) + t,
    ensures
        a == b,
        r == t,
{
    let x = native_bytes(a.0 as nat, 4);
    let y = native_bytes(b.0 as nat, 4);
    assert(entry_encoding(a) + r =~= x + (delta_encoding(a.1) + r));
    assert(entry_encoding(b) + t =~= y + (delta_encoding(b.1) + t));
    lemma_native_bytes_len(a.0 as nat, 4);
    lemma_native_bytes_len(b.0 as nat, 4);
    lemma_split(x, delta_encoding(a.1) + r, y, delta_encoding(b.1) + t);
    assert(span(4) == 0x1_0000_0000) by {
        reveal_with_fuel(span, 5);
    }
    lemma_native_bytes_tell_apart(a.0 as nat, b.0 as nat, 4);
    lemma_delta_first(a.1, r, b.1, t);
}

/// The first entry is fed first.
proof fn lemma_entries_encoding_first(entries: Seq<(SequenceNumber, DeltaView)>)
    requires
        entries.len() > 0,
    ensures
        entries_encoding(entries) == entry_encoding(entries[0]) + entries_encoding(entries.skip(1)),
    decreases entries.len(),
{
    if entries.len() == 1 {
        assert(entries_encoding(entries.drop_last()) =~= Seq::empty());
        assert(entries_encoding(entries.skip(1)) =~= Seq::empty());
        assert(entries_encoding(entries) =~= entry_encoding(entries[0]) + entries_encoding(
            entries.skip(1),
        ));
    } else {
        lemma_entries_encoding_first(entries.drop_last());
        assert(entries.drop_last().skip(1) =~= entries.skip(1).drop_last());
        assert(entries_encoding(entries) =~= entry_encoding(entries[0]) + entries_encoding(
            entries.skip(1),
        ));
    }
}

/// As many entries are told apart by how they are fed.
pub proof fn lemma_entries_tell_apart(
    a: Seq<(SequenceNumber, DeltaView)>,
    b: Seq<(SequenceNumber, DeltaView)>,
)
    requires
        a.len() == b.len(),
        forall|i: int| 0 <= i < a.len() ==> delta_fits((#[trigger] a[i]).1),
        forall|i: int| 0 <= i < b.len() ==> delta_fits((#[trigger] b[i]).1),
        entries_encoding(a) == entries_encoding(b),
    ensures
        a == b,
    decreases a.len(),
{
    if a.len() == 0 {
        assert(a =~= b);
    } else {
        lemma_entries_encoding_first(a);
        lemma_entries_encoding_first(b);
        lemma_entry_first(
            a[0],
            entries_encoding(a.skip(1)),
            b[0],
            entries_encoding(b.skip(1)),
        );
        lemma_entries_tell_apart(a.skip(1), b.skip(1));
        assert(a =~= seq![a[0]] + a.skip(1));
        assert(b =~= seq![b[0]] + b.skip(1));
    }
}

impl Encode for Delta {
    open spec fn encoding(&self) -> Seq<u8> {
        delta_encoding(self@)
    }

    fn encode(&self, out: &mut Vec<u8>) {
        let kind: usize = match self {
            Delta::Append(_) => 0,
            Delta::Truncate(_) => 1,
            Delta::Reset => 2,
        };
        kind.encode(out);
        match self {
            Delta::Append(bytes) => bytes.encode(out),
            Delta::Truncate(n) => n.encode(out),
            Delta::Reset => {},
        }
        assert(out@ =~= old(out)@ + self.encoding());
    }
}

impl Encode for Deltas {
    open spec fn encoding(&self) -> Seq<u8> {
        log_encoding(self@)
    }

    fn encode(&self, out: &mut Vec<u8>) {
        let all = self.entries_from(0);
        let ghost numbered = all@.map_values(|e: (SequenceNumber, &Delta)| (e.0, e.1@));
        all.len().encode(out);
        let ghost head = out@;
        for i in 0..all.len()
            invariant
                numbered == all@.map_values(|e: (SequenceNumber, &Delta)| (e.0, e.1@)),
                out@ == head + entries_encoding(numbered.take(i as int)),
        {
            all[i].0.encode(out);
            all[i].1.encode(out);
            proof {
                let done = numbered.take(i + 1);
                assert(done.drop_last() =~= numbered.take(i as int));
                assert(out@ =~= head + entries_encoding(done));
            }
        }
        assert(numbered.take(all@.len() as int) =~= numbered);
        assert(out@ =~= old(out)@ + self.encoding());
    }
}

impl Deltas {
    /// The checksum of the log.
    pub fn checksum(&self) -> (sum: u32)
        ensures
            sum == log_checksum(self@),
    {
        let mut fed: Vec<u8> = Vec::new();
        self.encode(&mut fed);
        assert(fed@ =~= self.encoding());
        crc32(&fed)
    }

    /// The checksum that the log would have with `new` written into it.
    pub fn checksum_with(&self, new: &Vec<(SequenceNumber, Delta)>) -> (sum: u32)
        ensures
            sum == log_checksum(merged(self@, entries_view(new@))),
    {
        let mut log = self.clone();
        for i in 0..new.len()
            invariant
                log@ == merged(self@, entries_view(new@.take(i as int))),
        {
            proof {
                let done = entries_view(new@.take(i + 1));
                assert(done.drop_last() =~= entries_view(new@.take(i as int)));
            }
            log.insert(new[i].0, new[i].1.clone());
        }
        assert(new@.take(new@.len() as int) =~= new@);
        log.checksum()
    }
}

} // verus!
