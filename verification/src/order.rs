//! Maps keyed by sequence number, read in ascending order.

use std::collections::BTreeMap;
use vstd::std_specs::cmp::OrdSpec;
use vstd::prelude::*;

verus! {

broadcast use {vstd::laws_cmp::group_laws_cmp, vstd::std_specs::btree::group_btree_axioms};

/// The number that places a change among the others.
pub type SequenceNumber = u32;

/// One past the greatest sequence number.
pub open spec fn seqn_end() -> int {
    0x1_0000_0000
}

/// The entries of `m` whose sequence number lies in `lo..hi`, in ascending order.
pub open spec fn entries<V>(m: Map<SequenceNumber, V>, lo: int, hi: int) -> Seq<(SequenceNumber, V)>
    decreases hi - lo,
{
    if hi <= lo {
        Seq::empty()
    } else {
        let below = entries(m, lo, hi - 1);
        let seqn = (hi - 1) as SequenceNumber;
        if m.contains_key(seqn) {
            below.push((seqn, m[seqn]))
        } else {
            below
        }
    }
}

/// All the entries of `m`, in ascending order.
pub open spec fn ordered<V>(m: Map<SequenceNumber, V>) -> Seq<(SequenceNumber, V)> {
    entries(m, 0, seqn_end())
}

/// The second components of a sequence of pairs.
pub open spec fn seconds<V>(s: Seq<(SequenceNumber, V)>) -> Seq<V> {
    s.map_values(|e: (SequenceNumber, V)| e.1)
}

/// Whether the sequence numbers of `s` go up from each entry to the next.
pub open spec fn ascending<V>(s: Seq<(SequenceNumber, V)>) -> bool {
    forall|i: int, j: int| 0 <= i < j < s.len() ==> (#[trigger] s[i]).0 < (#[trigger] s[j]).0
}

/// Whether `s` holds those entries of `m` whose sequence number lies in `lo..hi`, and no others.
pub open spec fn lists<V>(
    s: Seq<(SequenceNumber, V)>,
    m: Map<SequenceNumber, V>,
    lo: int,
    hi: int,
) -> bool {
    &&& forall|i: int| 0 <= i < s.len() ==> {
        &&& lo <= (#[trigger] s[i]).0 < hi
        &&& m.contains_key(s[i].0)
        &&& m[s[i].0] == s[i].1
    }
    &&& forall|k: SequenceNumber| #[trigger]
        m.contains_key(k) && lo <= k < hi ==> s.contains((k, m[k]))
}

/// Only one ascending sequence lists the entries of a map in a range.
pub proof fn lemma_ascending_list_is_entries<V>(
    s: Seq<(SequenceNumber, V)>,
    m: Map<SequenceNumber, V>,
    lo: int,
    hi: int,
)
    requires
        0 <= lo,
        hi <= seqn_end(),
        ascending(s),
        lists(s, m, lo, hi),
    ensures
        s == entries(m, lo, hi),
    decreases hi - lo,
{
    if hi <= lo {
        assert(s =~= Seq::empty()) by {
            if s.len() > 0 {
                assert(lo <= s[0].0 < hi);
            }
        }
    } else {
        let k = (hi - 1) as SequenceNumber;
        if m.contains_key(k) {
            let i = choose|i: int| 0 <= i < s.len() && s[i] == (k, m[k]);
            assert(s.contains((k, m[k])));
            assert(i == s.len() - 1) by {
                if i < s.len() - 1 {
                    assert(s[i].0 < s[s.len() - 1].0);
                }
            }
            let t = s.drop_last();
            assert forall|j: SequenceNumber| #[trigger]
                m.contains_key(j) && lo <= j < hi - 1 implies t.contains((j, m[j])) by {
                let n = choose|n: int| 0 <= n < s.len() && s[n] == (j, m[j]);
                assert(s.contains((j, m[j])));
                assert(t[n] == (j, m[j]));
            }
            assert forall|n: int| 0 <= n < t.len() implies lo <= (#[trigger] t[n]).0 < hi - 1 by {
                assert(s[n].0 < s[s.len() - 1].0);
            }
            lemma_ascending_list_is_entries(t, m, lo, hi - 1);
            assert(s =~= t.push((k, m[k])));
        } else {
            assert forall|n: int| 0 <= n < s.len() implies lo <= (#[trigger] s[n]).0 < hi - 1 by {
                assert(m.contains_key(s[n].0));
            }
            lemma_ascending_list_is_entries(s, m, lo, hi - 1);
        }
    }
}

/// `entries` is ascending and lists what it says.
pub proof fn lemma_entries<V>(m: Map<SequenceNumber, V>, lo: int, hi: int)
    requires
        0 <= lo,
        hi <= seqn_end(),
    ensures
        ascending(entries(m, lo, hi)),
        lists(entries(m, lo, hi), m, lo, hi),
    decreases hi - lo,
{
    if lo < hi {
        lemma_entries(m, lo, hi - 1);
        let below = entries(m, lo, hi - 1);
        let all = entries(m, lo, hi);
        let k = (hi - 1) as SequenceNumber;
        assert forall|j: SequenceNumber| #[trigger]
            m.contains_key(j) && lo <= j < hi implies all.contains((j, m[j])) by {
            if j == k {
                assert(all[all.len() - 1] == (j, m[j]));
            } else {
                assert(below.contains((j, m[j])));
                let n = choose|n: int| 0 <= n < below.len() && below[n] == (j, m[j]);
                assert(all[n] == (j, m[j]));
            }
        }
    }
}

/// The greatest sequence number of `m`, if it has any entry.
pub open spec fn greatest<V>(m: Map<SequenceNumber, V>) -> Option<SequenceNumber> {
    if ordered(m).len() == 0 {
        None
    } else {
        Some(ordered(m).last().0)
    }
}

/// Whether `found` is the greatest sequence number of `m`, or `None` where `m` has no entry.
pub open spec fn is_greatest<V>(m: Map<SequenceNumber, V>, found: Option<SequenceNumber>) -> bool {
    match found {
        None => forall|k: SequenceNumber| !m.contains_key(k),
        Some(last) => {
            &&& m.contains_key(last)
            &&& forall|k: SequenceNumber| #[trigger] m.contains_key(k) ==> k <= last
        },
    }
}

/// `greatest` is what its name says, and nothing else is.
pub proof fn lemma_greatest<V>(m: Map<SequenceNumber, V>)
    ensures
        is_greatest(m, greatest(m)),
        forall|found: Option<SequenceNumber>| is_greatest(m, found) ==> found == greatest(m),
{
    lemma_entries(m, 0, seqn_end());
    let all = ordered(m);
    assert forall|k: SequenceNumber| #[trigger] m.contains_key(k) implies all.len() > 0 && k
        <= all.last().0 by {
        assert(all.contains((k, m[k])));
        let i = choose|i: int| 0 <= i < all.len() && all[i] == (k, m[k]);
        if i < all.len() - 1 {
            assert(all[i].0 < all[all.len() - 1].0);
        }
    }
    assert forall|found: Option<SequenceNumber>| is_greatest(m, found) implies found == greatest(
        m,
    ) by {
        if all.len() > 0 {
            assert(m.contains_key(all.last().0));
        }
    }
}

/// The empty map has no entries.
pub proof fn lemma_ordered_empty<V>()
    ensures
        ordered(Map::<SequenceNumber, V>::empty()) == Seq::<(SequenceNumber, V)>::empty(),
{
    lemma_ascending_list_is_entries(
        Seq::<(SequenceNumber, V)>::empty(),
        Map::<SequenceNumber, V>::empty(),
        0,
        seqn_end(),
    );
}

/// An entry whose number is greater than all others comes last.
pub proof fn lemma_ordered_insert_last<V>(m: Map<SequenceNumber, V>, seqn: SequenceNumber, v: V)
    requires
        forall|k: SequenceNumber| #[trigger] m.contains_key(k) ==> k < seqn,
    ensures
        ordered(m.insert(seqn, v)) == ordered(m).push((seqn, v)),
{
    lemma_entries(m, 0, seqn_end());
    let grown = m.insert(seqn, v);
    let before = ordered(m);
    let all = before.push((seqn, v));
    assert forall|k: SequenceNumber| #[trigger] grown.contains_key(k) implies all.contains(
        (k, grown[k]),
    ) by {
        if k == seqn {
            assert(all[before.len() as int] == (k, grown[k]));
        } else {
            assert(m.contains_key(k));
            assert(before.contains((k, m[k])));
            let i = choose|i: int| 0 <= i < before.len() && before[i] == (k, m[k]);
            assert(all[i] == (k, grown[k]));
        }
    }
    assert forall|i: int| 0 <= i < all.len() implies grown.contains_key((#[trigger] all[i]).0)
        && grown[all[i].0] == all[i].1 by {
        if i < before.len() {
            assert(m.contains_key(before[i].0));
        }
    }
    lemma_ascending_list_is_entries(all, grown, 0, seqn_end());
}

/// Maps that hold the same under every number are the same.
pub proof fn lemma_same_map<V>(a: Map<SequenceNumber, V>, b: Map<SequenceNumber, V>)
    requires
        forall|k: SequenceNumber|
            #[trigger] a.contains_key(k) == b.contains_key(k) && (b.contains_key(k) ==> a[k]
                == b[k]),
    ensures
        a == b,
{
    assert(a.dom() =~= b.dom()) by {
        assert forall|k: SequenceNumber| a.dom().contains(k) == b.dom().contains(k) by {
            assert(a.contains_key(k) == b.contains_key(k));
        }
    }
    assert forall|k: SequenceNumber| a.dom().contains(k) implies a[k] == b[k] by {
        assert(a.contains_key(k) == b.contains_key(k));
    }
    assert(a =~= b);
}

/// Maps with the same entries in order are the same.
pub proof fn lemma_ordered_tells_apart<V>(a: Map<SequenceNumber, V>, b: Map<SequenceNumber, V>)
    requires
        ordered(a) == ordered(b),
    ensures
        a == b,
{
    lemma_entries(a, 0, seqn_end());
    lemma_entries(b, 0, seqn_end());
    let all = ordered(a);
    assert forall|k: SequenceNumber| a.contains_key(k) == b.contains_key(k) && (a.contains_key(k)
        ==> a[k] == b[k]) by {
        if a.contains_key(k) {
            assert(all.contains((k, a[k])));
            let i = choose|i: int| 0 <= i < all.len() && all[i] == (k, a[k]);
            assert(b.contains_key(all[i].0));
        }
        if b.contains_key(k) {
            assert(all.contains((k, b[k])));
            let i = choose|i: int| 0 <= i < all.len() && all[i] == (k, b[k]);
            assert(a.contains_key(all[i].0));
        }
    }
    assert(a =~= b);
}

/// A map and its image under `f` have corresponding entries.
pub proof fn lemma_entries_map_values<V, W>(
    m: Map<SequenceNumber, V>,
    f: spec_fn(V) -> W,
    lo: int,
    hi: int,
)
    ensures
        entries(m.map_values(f), lo, hi) == entries(m, lo, hi).map_values(
            |e: (SequenceNumber, V)| (e.0, f(e.1)),
        ),
    decreases hi - lo,
{
    let g = |e: (SequenceNumber, V)| (e.0, f(e.1));
    if lo < hi {
        lemma_entries_map_values(m, f, lo, hi - 1);
    }
    assert(entries(m.map_values(f), lo, hi) =~= entries(m, lo, hi).map_values(g));
}

/// What a vector of borrowed entries holds.
pub open spec fn owned<V>(s: Seq<(SequenceNumber, &V)>) -> Seq<(SequenceNumber, V)> {
    s.map_values(|e: (SequenceNumber, &V)| (e.0, *e.1))
}

/// A tree walks its entries in ascending order of the sequence number.
proof fn lemma_keys_go_up<V>(walk: Seq<(&SequenceNumber, &V)>)
    requires
        vstd::std_specs::btree::increasing_seq(
            walk.map_values(|e: (&SequenceNumber, &V)| *e.0),
        ),
    ensures
        forall|i: int, j: int|
            0 <= i < j < walk.len() ==> *(#[trigger] walk[i]).0 < *(#[trigger] walk[j]).0,
{
    let keys = walk.map_values(|e: (&SequenceNumber, &V)| *e.0);
    assert forall|i: int, j: int| 0 <= i < j < walk.len() implies *(#[trigger] walk[i]).0 < *(
    #[trigger] walk[j]).0 by {
        assert(vstd::laws_cmp::obeys_cmp::<SequenceNumber>());
        assert(keys[i].cmp_spec(&keys[j]) is Less);
    }
}

/// Collects the entries of `m` from the sequence number `from` on, in ascending order.
pub fn entries_from<V>(m: &BTreeMap<SequenceNumber, V>, from: SequenceNumber) -> (out: Vec<
    (SequenceNumber, &V),
>)
    ensures
        owned(out@) == entries(m@, from as int, seqn_end()),
{
    let mut out: Vec<(SequenceNumber, &V)> = Vec::new();
    let ghost lo = from as int;
    for e in it: m.iter()
        invariant
            lo == from,
            vstd::std_specs::btree::increasing_seq(
                it.seq().map_values(|e: (&SequenceNumber, &V)| *e.0),
            ),
            forall|k: SequenceNumber| #[trigger]
                m@.contains_key(k) ==> it.seq().contains((&k, &m@[k])),
            forall|i: int|
                0 <= i < it.seq().len() ==> {
                    &&& m@.contains_key(*(#[trigger] it.seq()[i]).0)
                    &&& m@[*it.seq()[i].0] == *it.seq()[i].1
                },
            forall|i: int, j: int|
                0 <= i < j < out@.len() ==> (#[trigger] out@[i]).0 < (#[trigger] out@[j]).0,
            forall|i: int| 0 <= i < out@.len() ==> {
                &&& lo <= (#[trigger] out@[i]).0
                &&& m@.contains_key(out@[i].0)
                &&& m@[out@[i].0] == *out@[i].1
            },
            forall|i: int, j: int|
                0 <= i < out@.len() && it.index() <= j < it.seq().len() ==> (#[trigger] out@[i]).0
                    < *(#[trigger] it.seq()[j]).0,
            forall|i: int|
                0 <= i < it.index() && lo <= *(#[trigger] it.seq()[i]).0 ==> owned(out@).contains(
                    (*it.seq()[i].0, *it.seq()[i].1),
                ),
    {
        let ghost before = out@;
        proof {
            lemma_keys_go_up(it.seq());
        }
        if *e.0 >= from {
            out.push((*e.0, e.1));
        }
        proof {
            assert forall|i: int| 0 <= i <= it.index() && lo <= *(#[trigger] it.seq()[i]).0 implies
                owned(out@).contains((*it.seq()[i].0, *it.seq()[i].1)) by {
                let x = (*it.seq()[i].0, *it.seq()[i].1);
                if i < it.index() {
                    let n = choose|n: int| 0 <= n < before.len() && owned(before)[n] == x;
                    assert(owned(out@)[n] == x);
                } else {
                    assert(owned(out@)[before.len() as int] == x);
                }
            }
        }
    }
    proof {
        lemma_ascending_list_is_entries(owned(out@), m@, lo, seqn_end());
    }
    out
}

/// Finds the greatest sequence number of `m`.
pub fn greatest_seqn<V>(m: &BTreeMap<SequenceNumber, V>) -> (found: Option<SequenceNumber>)
    ensures
        found == greatest(m@),
        is_greatest(m@, found),
{
    proof {
        lemma_greatest(m@);
    }
    let all = entries_from(m, 0);
    assert(owned(all@) == ordered(m@));
    assert(all@.len() == ordered(m@).len());
    if all.len() == 0 {
        None
    } else {
        let last = all.len() - 1;
        assert(owned(all@)[last as int] == (all@[last as int].0, *all@[last as int].1));
        Some(all[last].0)
    }
}

} // verus!
