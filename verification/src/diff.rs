//! The diff engine: pairs the records of two collection rounds by identity and reports
//! every identity that was added, removed or changed between them.

use vstd::prelude::*;
use crate::text::{
    lemma_text_lt_irreflexive, lemma_text_lt_transitive, text_lt, text_order, texts, TextOrder,
};

verus! {

/// What the diff engine needs to know of an entity type: how a record is recognised from one
/// round to the next, and which of its contents count as data.
pub trait Entity: Sized {
    /// The data fields of a record, as they are compared between rounds.
    type Fields;

    /// The identity key of the record.
    spec fn identity(&self) -> Seq<char>;

    /// The data fields of the record.
    spec fn fields(&self) -> Self::Fields;

    /// Returns the identity key of the record.
    fn identity_of(&self) -> (id: String)
        ensures
            id@ == self.identity(),
    ;

    /// Tells whether two records hold the same data, field for field.
    fn same_fields(&self, other: &Self) -> (same: bool)
        ensures
            same == (self.fields() == other.fields()),
    ;
}

/// How an identity differs between the first and the second round.
#[derive(Clone, Copy, Debug, PartialEq, Eq, Structural)]
pub enum DiffKind {
    /// Seen in the second round only.
    Added,
    /// Seen in the first round only.
    Removed,
    /// Seen in both rounds, with different data.
    Changed,
}

/// What the two rounds hold for one identity.
pub struct SnapshotDiffEntry<E> {
    pub identity: String,
    /// The record of the first round, if the identity was seen there.
    pub first: Option<E>,
    /// The record of the second round, if the identity was seen there.
    pub second: Option<E>,
}

impl<E: Entity> SnapshotDiffEntry<E> {
    /// The entry holds a record of at least one round, and each record it holds has the
    /// entry's identity.
    pub open spec fn wf(&self) -> bool {
        &&& self.first is Some || self.second is Some
        &&& self.first matches Some(r) ==> r.identity() == self.identity@
        &&& self.second matches Some(r) ==> r.identity() == self.identity@
    }

    /// The classification of a well-formed entry.
    pub open spec fn spec_kind(&self) -> DiffKind {
        if self.first is None {
            DiffKind::Added
        } else if self.second is None {
            DiffKind::Removed
        } else {
            DiffKind::Changed
        }
    }

    /// Both rounds saw the identity and hold the same data for it.
    pub open spec fn unchanged(&self) -> bool {
        &&& self.first matches Some(a)
        &&& self.second matches Some(b)
        &&& a.fields() == b.fields()
    }

    /// Classifies the entry by the rounds in which its identity was seen.
    pub fn kind(&self) -> (k: DiffKind)
        requires
            self.wf(),
        ensures
            k == self.spec_kind(),
            k == DiffKind::Added <==> self.first is None,
            k == DiffKind::Removed <==> self.second is None,
            k == DiffKind::Changed <==> (self.first is Some && self.second is Some),
    {
        if self.first.is_none() {
            DiffKind::Added
        } else if self.second.is_none() {
            DiffKind::Removed
        } else {
            DiffKind::Changed
        }
    }

    /// Tells whether both rounds hold the same data for the identity.
    pub fn is_unchanged(&self) -> (same: bool)
        ensures
            same == self.unchanged(),
    {
        match &self.first {
            Some(a) => match &self.second {
                Some(b) => a.same_fields(b),
                None => false,
            },
            None => false,
        }
    }
}

/// The records of one round by identity. Where an identity occurs more than once, the record
/// seen last stands for it.
pub open spec fn round_map<E: Entity>(records: Seq<E>) -> Map<Seq<char>, E>
    decreases records.len(),
{
    if records.len() == 0 {
        Map::empty()
    } else {
        round_map(records.drop_last()).insert(records.last().identity(), records.last())
    }
}

/// A round after it has taken in `records`, one after the other, on top of what it held.
pub open spec fn round_after<E: Entity>(base: Map<Seq<char>, E>, records: Seq<E>) -> Map<
    Seq<char>,
    E,
>
    decreases records.len(),
{
    if records.len() == 0 {
        base
    } else {
        round_after(base, records.drop_last()).insert(records.last().identity(), records.last())
    }
}

/// The identities that collide while a round takes in `records` on top of what it held: for
/// each record whose identity the round holds already, that identity, in the order of the
/// records.
pub open spec fn collisions<E: Entity>(base: Map<Seq<char>, E>, records: Seq<E>) -> Seq<Seq<char>>
    decreases records.len(),
{
    if records.len() == 0 {
        Seq::empty()
    } else {
        let front = collisions(base, records.drop_last());
        if round_after(base, records.drop_last()).contains_key(records.last().identity()) {
            front.push(records.last().identity())
        } else {
            front
        }
    }
}

/// The identity `id` is to be reported: a round saw it, and the rounds do not agree on it.
pub open spec fn reported<E: Entity>(
    first: Map<Seq<char>, E>,
    second: Map<Seq<char>, E>,
    id: Seq<char>,
) -> bool {
    &&& first.contains_key(id) || second.contains_key(id)
    &&& !(first.contains_key(id) && second.contains_key(id) && first[id].fields()
        == second[id].fields())
}

/// The identities of `entries` stand in strictly ascending order.
pub open spec fn ascending<E>(entries: Seq<SnapshotDiffEntry<E>>) -> bool {
    forall|i: int, j: int|
        #![trigger entries[i], entries[j]]
        0 <= i < j < entries.len() ==> text_lt(entries[i].identity@, entries[j].identity@)
}

/// `out` is the difference between the rounds `first` and `second`: one entry for each
/// reported identity and for no other, in ascending order of identity, each holding what the
/// two rounds hold for it.
pub open spec fn is_diff_of<E: Entity>(
    first: Map<Seq<char>, E>,
    second: Map<Seq<char>, E>,
    out: Seq<SnapshotDiffEntry<E>>,
) -> bool {
    &&& ascending(out)
    &&& forall|i: int|
        #![trigger out[i]]
        0 <= i < out.len() ==> {
            &&& reported(first, second, out[i].identity@)
            &&& out[i].first == first.get(out[i].identity@)
            &&& out[i].second == second.get(out[i].identity@)
        }
    &&& forall|id: Seq<char>|
        #![trigger first.contains_key(id)]
        #![trigger second.contains_key(id)]
        reported(first, second, id) ==> exists|i: int|
            0 <= i < out.len() && (#[trigger] out[i]).identity@ == id
}

/// Some entry of `entries` has the identity `id`.
spec fn holds<E>(entries: Seq<SnapshotDiffEntry<E>>, id: Seq<char>) -> bool {
    exists|i: int| 0 <= i < entries.len() && (#[trigger] entries[i]).identity@ == id
}

/// The place of the entry with the identity `id`, where there is one.
spec fn position<E>(entries: Seq<SnapshotDiffEntry<E>>, id: Seq<char>) -> int {
    choose|i: int| 0 <= i < entries.len() && (#[trigger] entries[i]).identity@ == id
}

/// The first-round records of `entries`, by identity.
spec fn firsts<E>(entries: Seq<SnapshotDiffEntry<E>>) -> Map<Seq<char>, E> {
    Map::new(
        |id: Seq<char>| holds(entries, id) && entries[position(entries, id)].first is Some,
        |id: Seq<char>| entries[position(entries, id)].first->0,
    )
}

/// The second-round records of `entries`, by identity.
spec fn seconds<E>(entries: Seq<SnapshotDiffEntry<E>>) -> Map<Seq<char>, E> {
    Map::new(
        |id: Seq<char>| holds(entries, id) && entries[position(entries, id)].second is Some,
        |id: Seq<char>| entries[position(entries, id)].second->0,
    )
}

/// In an ascending sequence an identity has one place only.
proof fn lemma_position<E>(entries: Seq<SnapshotDiffEntry<E>>, i: int)
    requires
        ascending(entries),
        0 <= i < entries.len(),
    ensures
        holds(entries, entries[i].identity@),
        position(entries, entries[i].identity@) == i,
        firsts(entries).get(entries[i].identity@) == entries[i].first,
        seconds(entries).get(entries[i].identity@) == entries[i].second,
{
    let id = entries[i].identity@;
    let p = position(entries, id);
    lemma_text_lt_irreflexive(id);
    if p < i {
        assert(text_lt(entries[p].identity@, entries[i].identity@));
    } else if i < p {
        assert(text_lt(entries[i].identity@, entries[p].identity@));
    }
}

/// An identity that belongs between two neighbours of an ascending sequence is not in it.
proof fn lemma_absent<E>(entries: Seq<SnapshotDiffEntry<E>>, idx: int, id: Seq<char>)
    requires
        0 <= idx <= entries.len(),
        forall|j: int| 0 <= j < idx ==> text_lt((#[trigger] entries[j]).identity@, id),
        forall|j: int| idx <= j < entries.len() ==> text_lt(id, (#[trigger] entries[j]).identity@),
    ensures
        !firsts(entries).contains_key(id),
        !seconds(entries).contains_key(id),
{
    lemma_text_lt_irreflexive(id);
    if holds(entries, id) {
        let p = position(entries, id);
        assert(entries[p].identity@ == id);
    }
}

/// Putting a new identity in its place keeps the order and adds its records to the rounds.
proof fn lemma_insert_entry<E>(
    entries: Seq<SnapshotDiffEntry<E>>,
    idx: int,
    e: SnapshotDiffEntry<E>,
)
    requires
        ascending(entries),
        0 <= idx <= entries.len(),
        forall|j: int| 0 <= j < idx ==> text_lt((#[trigger] entries[j]).identity@, e.identity@),
        forall|j: int|
            idx <= j < entries.len() ==> text_lt(e.identity@, (#[trigger] entries[j]).identity@),
    ensures
        ascending(entries.insert(idx, e)),
        firsts(entries.insert(idx, e)) == (match e.first {
            Some(r) => firsts(entries).insert(e.identity@, r),
            None => firsts(entries),
        }),
        seconds(entries.insert(idx, e)) == (match e.second {
            Some(r) => seconds(entries).insert(e.identity@, r),
            None => seconds(entries),
        }),
{
    let after = entries.insert(idx, e);
    let id = e.identity@;
    assert forall|i: int, j: int| 0 <= i < j < after.len() implies text_lt(
        after[i].identity@,
        after[j].identity@,
    ) by {
        let a = if i < idx { i } else { i - 1 };
        let b = if j < idx { j } else { j - 1 };
        if i == idx {
            assert(after[j] == entries[b]);
        } else if j == idx {
            assert(after[i] == entries[a]);
        } else {
            assert(after[i] == entries[a]);
            assert(after[j] == entries[b]);
        }
    }
    lemma_text_lt_irreflexive(id);
    assert(!holds(entries, id)) by {
        if holds(entries, id) {
            let p = position(entries, id);
            assert(entries[p].identity@ == id);
        }
    }
    lemma_position(after, idx);
    let f = match e.first {
        Some(r) => firsts(entries).insert(id, r),
        None => firsts(entries),
    };
    let s = match e.second {
        Some(r) => seconds(entries).insert(id, r),
        None => seconds(entries),
    };
    assert forall|k: Seq<char>|
        firsts(after).get(k) == f.get(k) && seconds(after).get(k) == s.get(k) by {
        if k == id {
        } else if holds(entries, k) {
            let p = position(entries, k);
            let q = if p < idx { p } else { p + 1 };
            assert(after[q] == entries[p]);
            lemma_position(entries, p);
            lemma_position(after, q);
        } else {
            if holds(after, k) {
                let q = position(after, k);
                let p = if q < idx { q } else { q - 1 };
                assert(after[q] == entries[p]);
            }
        }
    }
    assert(firsts(after) =~= f) by {
        assert forall|k: Seq<char>| firsts(after).contains_key(k) == f.contains_key(k) by {
            assert(firsts(after).get(k) == f.get(k));
        }
        assert forall|k: Seq<char>| firsts(after).contains_key(k) implies firsts(after)[k]
            == f[k] by {
            assert(firsts(after).get(k) == f.get(k));
        }
    }
    assert(seconds(after) =~= s) by {
        assert forall|k: Seq<char>| seconds(after).contains_key(k) == s.contains_key(k) by {
            assert(seconds(after).get(k) == s.get(k));
        }
        assert forall|k: Seq<char>| seconds(after).contains_key(k) implies seconds(after)[k]
            == s[k] by {
            assert(seconds(after).get(k) == s.get(k));
        }
    }
}

/// Replacing an entry by one of the same identity keeps the order and replaces its records
/// in the rounds.
proof fn lemma_update_entry<E>(
    entries: Seq<SnapshotDiffEntry<E>>,
    idx: int,
    e: SnapshotDiffEntry<E>,
)
    requires
        ascending(entries),
        0 <= idx < entries.len(),
        e.identity@ == entries[idx].identity@,
    ensures
        ascending(entries.update(idx, e)),
        firsts(entries.update(idx, e)) == (match e.first {
            Some(r) => firsts(entries).insert(e.identity@, r),
            None => firsts(entries).remove(e.identity@),
        }),
        seconds(entries.update(idx, e)) == (match e.second {
            Some(r) => seconds(entries).insert(e.identity@, r),
            None => seconds(entries).remove(e.identity@),
        }),
{
    let after = entries.update(idx, e);
    let id = e.identity@;
    assert forall|i: int, j: int| 0 <= i < j < after.len() implies text_lt(
        after[i].identity@,
        after[j].identity@,
    ) by {
        assert(text_lt(entries[i].identity@, entries[j].identity@));
    }
    lemma_position(after, idx);
    let f = match e.first {
        Some(r) => firsts(entries).insert(id, r),
        None => firsts(entries).remove(id),
    };
    let s = match e.second {
        Some(r) => seconds(entries).insert(id, r),
        None => seconds(entries).remove(id),
    };
    assert forall|k: Seq<char>|
        firsts(after).get(k) == f.get(k) && seconds(after).get(k) == s.get(k) by {
        if k == id {
        } else if holds(entries, k) {
            let p = position(entries, k);
            assert(after[p] == entries[p]);
            lemma_position(entries, p);
            lemma_position(after, p);
        } else {
            if holds(after, k) {
                let q = position(after, k);
                assert(after[q] == entries[q]);
            }
        }
    }
    assert(firsts(after) =~= f) by {
        assert forall|k: Seq<char>| firsts(after).contains_key(k) == f.contains_key(k) by {
            assert(firsts(after).get(k) == f.get(k));
        }
        assert forall|k: Seq<char>| firsts(after).contains_key(k) implies firsts(after)[k]
            == f[k] by {
            assert(firsts(after).get(k) == f.get(k));
        }
    }
    assert(seconds(after) =~= s) by {
        assert forall|k: Seq<char>| seconds(after).contains_key(k) == s.contains_key(k) by {
            assert(seconds(after).get(k) == s.get(k));
        }
        assert forall|k: Seq<char>| seconds(after).contains_key(k) implies seconds(after)[k]
            == s[k] by {
            assert(seconds(after).get(k) == s.get(k));
        }
    }
}

/// The working state of a diff: what the records seen so far hold for each identity. Records
/// of the first and of the second round may be added in any order; the difference is read
/// from the state with `entries`.
pub struct DiffState<E> {
    entries: Vec<SnapshotDiffEntry<E>>,
}

impl<E: Entity> DiffState<E> {
    /// The state is in order: identities ascend, and every entry is well-formed.
    pub closed spec fn wf(&self) -> bool {
        &&& ascending(self.entries@)
        &&& forall|i: int|
            #![trigger self.entries@[i]]
            0 <= i < self.entries@.len() ==> self.entries@[i].wf()
    }

    /// The records of the first round, by identity.
    pub closed spec fn first_round(&self) -> Map<Seq<char>, E> {
        firsts(self.entries@)
    }

    /// The records of the second round, by identity.
    pub closed spec fn second_round(&self) -> Map<Seq<char>, E> {
        seconds(self.entries@)
    }

    /// A state that has seen no record.
    pub fn new() -> (state: Self)
        ensures
            state.wf(),
            state.first_round() == Map::<Seq<char>, E>::empty(),
            state.second_round() == Map::<Seq<char>, E>::empty(),
    {
        let state = DiffState { entries: Vec::new() };
        assert(state.first_round() =~= Map::<Seq<char>, E>::empty());
        assert(state.second_round() =~= Map::<Seq<char>, E>::empty());
        state
    }

    /// Finds the place of `id`: where its entry stands, or where it would have to stand.
    fn locate(&self, id: &str) -> (place: (usize, bool))
        requires
            self.wf(),
        ensures
            place.0 <= self.entries@.len(),
            place.1 ==> place.0 < self.entries@.len() && self.entries@[place.0 as int].identity@
                == id@,
            !place.1 ==> forall|j: int|
                0 <= j < place.0 ==> text_lt((#[trigger] self.entries@[j]).identity@, id@),
            !place.1 ==> forall|j: int|
                place.0 <= j < self.entries@.len() ==> text_lt(
                    id@,
                    (#[trigger] self.entries@[j]).identity@,
                ),
    {
        let mut lo: usize = 0;
        let mut hi: usize = self.entries.len();
        while lo < hi
            invariant
                self.wf(),
                lo <= hi <= self.entries@.len(),
                forall|j: int| 0 <= j < lo ==> text_lt((#[trigger] self.entries@[j]).identity@, id@),
                forall|j: int|
                    hi <= j < self.entries@.len() ==> text_lt(
                        id@,
                        (#[trigger] self.entries@[j]).identity@,
                    ),
            decreases hi - lo,
        {
            let mid: usize = lo + (hi - lo) / 2;
            match text_order(self.entries[mid].identity.as_str(), id) {
                TextOrder::Same => {
                    return (mid, true);
                },
                TextOrder::Before => {
                    proof {
                        assert forall|j: int| 0 <= j < mid + 1 implies text_lt(
                            (#[trigger] self.entries@[j]).identity@,
                            id@,
                        ) by {
                            if j < mid {
                                lemma_text_lt_transitive(
                                    self.entries@[j].identity@,
                                    self.entries@[mid as int].identity@,
                                    id@,
                                );
                            }
                        }
                    }
                    lo = mid + 1;
                },
                TextOrder::After => {
                    proof {
                        assert forall|j: int| mid <= j < self.entries@.len() implies text_lt(
                            id@,
                            (#[trigger] self.entries@[j]).identity@,
                        ) by {
                            if mid < j {
                                lemma_text_lt_transitive(
                                    id@,
                                    self.entries@[mid as int].identity@,
                                    self.entries@[j].identity@,
                                );
                            }
                        }
                    }
                    hi = mid;
                },
            }
        }
        (lo, false)
    }

    /// Takes in a record of the first round. It replaces an earlier first-round record of the
    /// same identity, and the result tells whether there was one: two records of one round
    /// with the same identity are an anomaly that the caller may want to report.
    pub fn record_first(&mut self, record: E) -> (replaced: bool)
        requires
            old(self).wf(),
        ensures
            final(self).wf(),
            final(self).first_round() == old(self).first_round().insert(record.identity(), record),
            final(self).second_round() == old(self).second_round(),
            replaced == old(self).first_round().contains_key(record.identity()),
    {
        let id = record.identity_of();
        let (idx, found) = self.locate(id.as_str());
        if found {
            let mut entry = self.entries.remove(idx);
            let replaced = entry.first.is_some();
            entry.first = Some(record);
            proof {
                lemma_position(old(self).entries@, idx as int);
                lemma_update_entry(old(self).entries@, idx as int, entry);
                assert(self.entries@.insert(idx as int, entry) =~= old(self).entries@.update(
                    idx as int,
                    entry,
                ));
                let s = old(self).second_round();
                if entry.second is Some {
                    assert(s.insert(id@, entry.second->0) =~= s);
                } else {
                    assert(s.remove(id@) =~= s);
                }
            }
            self.entries.insert(idx, entry);
            replaced
        } else {
            let entry = SnapshotDiffEntry { identity: id, first: Some(record), second: None };
            proof {
                lemma_insert_entry(self.entries@, idx as int, entry);
                lemma_absent(self.entries@, idx as int, id@);
            }
            self.entries.insert(idx, entry);
            false
        }
    }

    /// Takes in a record of the second round. It replaces an earlier second-round record of
    /// the same identity, and the result tells whether there was one.
    pub fn record_second(&mut self, record: E) -> (replaced: bool)
        requires
            old(self).wf(),
        ensures
            final(self).wf(),
            final(self).first_round() == old(self).first_round(),
            final(self).second_round() == old(self).second_round().insert(
                record.identity(),
                record,
            ),
            replaced == old(self).second_round().contains_key(record.identity()),
    {
        let id = record.identity_of();
        let (idx, found) = self.locate(id.as_str());
        if found {
            let mut entry = self.entries.remove(idx);
            let replaced = entry.second.is_some();
            entry.second = Some(record);
            proof {
                lemma_position(old(self).entries@, idx as int);
                lemma_update_entry(old(self).entries@, idx as int, entry);
                assert(self.entries@.insert(idx as int, entry) =~= old(self).entries@.update(
                    idx as int,
                    entry,
                ));
                let f = old(self).first_round();
                if entry.first is Some {
                    assert(f.insert(id@, entry.first->0) =~= f);
                } else {
                    assert(f.remove(id@) =~= f);
                }
            }
            self.entries.insert(idx, entry);
            replaced
        } else {
            let entry = SnapshotDiffEntry { identity: id, first: None, second: Some(record) };
            proof {
                lemma_insert_entry(self.entries@, idx as int, entry);
                lemma_absent(self.entries@, idx as int, id@);
            }
            self.entries.insert(idx, entry);
            false
        }
    }

    /// Takes in the records of the first round, one after the other, and returns the
    /// identities that collided: one for each record that replaced an earlier one.
    pub fn record_all_first(&mut self, records: Vec<E>) -> (collided: Vec<String>)
        requires
            old(self).wf(),
        ensures
            final(self).wf(),
            final(self).first_round() == round_after(old(self).first_round(), records@),
            final(self).second_round() == old(self).second_round(),
            texts(collided@) == collisions(old(self).first_round(), records@),
    {
        let ghost all = records@;
        let ghost base = self.first_round();
        let mut collided: Vec<String> = Vec::new();
        assert(texts(collided@) =~= collisions(base, all.take(0)));
        for record in it: records
            invariant
                it.seq() == all,
                self.wf(),
                base == old(self).first_round(),
                self.first_round() == round_after(base, all.take(it.index() as int)),
                self.second_round() == old(self).second_round(),
                texts(collided@) == collisions(base, all.take(it.index() as int)),
        {
            proof {
                let n = it.index() as int;
                assert(all.take(n + 1).drop_last() =~= all.take(n));
            }
            let id = record.identity_of();
            if self.record_first(record) {
                let ghost before = collided@;
                collided.push(id);
                assert(texts(collided@) =~= texts(before).push(id@));
            }
        }
        assert(all.take(all.len() as int) =~= all);
        collided
    }

    /// Takes in the records of the second round, one after the other, and returns the
    /// identities that collided: one for each record that replaced an earlier one.
    pub fn record_all_second(&mut self, records: Vec<E>) -> (collided: Vec<String>)
        requires
            old(self).wf(),
        ensures
            final(self).wf(),
            final(self).first_round() == old(self).first_round(),
            final(self).second_round() == round_after(old(self).second_round(), records@),
            texts(collided@) == collisions(old(self).second_round(), records@),
    {
        let ghost all = records@;
        let ghost base = self.second_round();
        let mut collided: Vec<String> = Vec::new();
        assert(texts(collided@) =~= collisions(base, all.take(0)));
        for record in it: records
            invariant
                it.seq() == all,
                self.wf(),
                base == old(self).second_round(),
                self.first_round() == old(self).first_round(),
                self.second_round() == round_after(base, all.take(it.index() as int)),
                texts(collided@) == collisions(base, all.take(it.index() as int)),
        {
            proof {
                let n = it.index() as int;
                assert(all.take(n + 1).drop_last() =~= all.take(n));
            }
            let id = record.identity_of();
            if self.record_second(record) {
                let ghost before = collided@;
                collided.push(id);
                assert(texts(collided@) =~= texts(before).push(id@));
            }
        }
        assert(all.take(all.len() as int) =~= all);
        collided
    }

    /// The difference between the two rounds as the state has seen them: the entries of the
    /// identities on which the rounds do not agree, in ascending order of identity.
    pub fn entries(self) -> (out: Vec<SnapshotDiffEntry<E>>)
        requires
            self.wf(),
        ensures
            is_diff_of(self.first_round(), self.second_round(), out@),
            forall|i: int| 0 <= i < out@.len() ==> (#[trigger] out@[i]).wf(),
    {
        let ghost all = self.entries@;
        let ghost mut from: Seq<int> = Seq::empty();
        let mut out: Vec<SnapshotDiffEntry<E>> = Vec::new();
        for entry in it: self.entries
            invariant
                it.seq() == all,
                ascending(all),
                from.len() == out@.len(),
                forall|n: int|
                    0 <= n < out@.len() ==> 0 <= #[trigger] from[n] < it.index() && out@[n]
                        == all[from[n]] && !all[from[n]].unchanged(),
                forall|n: int, m: int|
                    0 <= n < m < out@.len() ==> #[trigger] from[n] < #[trigger] from[m],
                forall|i: int|
                    0 <= i < it.index() && !(#[trigger] all[i]).unchanged() ==> exists|n: int|
                        0 <= n < out@.len() && #[trigger] from[n] == i,
        {
            if !entry.is_unchanged() {
                let ghost before = from;
                proof {
                    from = from.push(it.index() as int);
                }
                out.push(entry);
                proof {
                    assert forall|i: int|
                        0 <= i < it.index() + 1 && !(#[trigger] all[i]).unchanged() implies exists|
                        n: int,
                    | 0 <= n < out@.len() && #[trigger] from[n] == i by {
                        if i < it.index() {
                            let n = choose|n: int| 0 <= n < before.len() && #[trigger] before[n] == i;
                            assert(from[n] == i);
                        } else {
                            assert(from[out@.len() - 1] == i);
                        }
                    }
                }
            }
        }
        proof {
            let f = self.first_round();
            let s = self.second_round();
            assert forall|i: int| 0 <= i < out@.len() implies {
                &&& reported(f, s, (#[trigger] out@[i]).identity@)
                &&& out@[i].first == f.get(out@[i].identity@)
                &&& out@[i].second == s.get(out@[i].identity@)
                &&& out@[i].wf()
            } by {
                lemma_position(all, from[i]);
                assert(all[from[i]].wf());
            }
            assert forall|i: int, j: int| 0 <= i < j < out@.len() implies text_lt(
                out@[i].identity@,
                out@[j].identity@,
            ) by {
                assert(from[i] < from[j]);
                assert(text_lt(all[from[i]].identity@, all[from[j]].identity@));
            }
            assert forall|id: Seq<char>| reported(f, s, id) implies exists|i: int|
                0 <= i < out@.len() && (#[trigger] out@[i]).identity@ == id by {
                assert(holds(all, id));
                let p = position(all, id);
                lemma_position(all, p);
                let n = choose|n: int| 0 <= n < out@.len() && #[trigger] from[n] == p;
                assert(out@[n].identity@ == id);
            }
        }
        out
    }
}

/// Computes the difference between two rounds of records: one entry for each identity on
/// which the rounds do not agree, in ascending order of identity. Where a round holds an
/// identity more than once, the record seen last stands for it.
pub fn diff<E: Entity>(first_records: Vec<E>, second_records: Vec<E>) -> (out: Vec<
    SnapshotDiffEntry<E>,
>)
    ensures
        is_diff_of(round_map(first_records@), round_map(second_records@), out@),
        forall|i: int| 0 <= i < out@.len() ==> (#[trigger] out@[i]).wf(),
{
    let mut state: DiffState<E> = DiffState::new();
    proof {
        lemma_round_after_nothing(first_records@);
        lemma_round_after_nothing(second_records@);
    }
    let _ = state.record_all_first(first_records);
    let _ = state.record_all_second(second_records);
    state.entries()
}

/// A round that starts empty holds just what it takes in.
pub proof fn lemma_round_after_nothing<E: Entity>(records: Seq<E>)
    ensures
        round_after(Map::<Seq<char>, E>::empty(), records) == round_map(records),
    decreases records.len(),
{
    if records.len() > 0 {
        lemma_round_after_nothing(records.drop_last());
    }
}

/// No two records of `records` have the same identity.
pub open spec fn distinct_identities<E: Entity>(records: Seq<E>) -> bool {
    forall|i: int, j: int|
        #![trigger records[i], records[j]]
        0 <= i < j < records.len() ==> records[i].identity() != records[j].identity()
}

/// A round holds exactly the identities of its records, and each of its records has the
/// identity under which the round holds it.
pub proof fn lemma_round_map_keys<E: Entity>(records: Seq<E>)
    ensures
        forall|id: Seq<char>| #[trigger]
            round_map(records).contains_key(id) <==> exists|i: int|
                0 <= i < records.len() && (#[trigger] records[i]).identity() == id,
        forall|id: Seq<char>| #[trigger]
            round_map(records).contains_key(id) ==> round_map(records)[id].identity() == id,
    decreases records.len(),
{
    if records.len() > 0 {
        let front = records.drop_last();
        let last = records.last();
        lemma_round_map_keys(front);
        assert(round_map(records) == round_map(front).insert(last.identity(), last));
        assert forall|id: Seq<char>| #[trigger]
            round_map(records).contains_key(id) implies exists|i: int|
            0 <= i < records.len() && (#[trigger] records[i]).identity() == id by {
            if id == last.identity() {
                assert(records[records.len() - 1].identity() == id);
            } else {
                assert(round_map(front).contains_key(id));
                let i = choose|i: int| 0 <= i < front.len() && (#[trigger] front[i]).identity() == id;
                assert(records[i] == front[i]);
            }
        }
        assert forall|id: Seq<char>|
            (exists|i: int| 0 <= i < records.len() && (#[trigger] records[i]).identity() == id)
            implies #[trigger] round_map(records).contains_key(id) by {
            let i = choose|i: int| 0 <= i < records.len() && (#[trigger] records[i]).identity() == id;
            if i < front.len() {
                assert(front[i] == records[i]);
                assert(round_map(front).contains_key(id));
            }
        }
    }
}

/// Where no identity occurs twice, a round holds each of its records under its identity.
pub proof fn lemma_round_map_of_distinct<E: Entity>(records: Seq<E>, i: int)
    requires
        distinct_identities(records),
        0 <= i < records.len(),
    ensures
        round_map(records).contains_key(records[i].identity()),
        round_map(records)[records[i].identity()] == records[i],
    decreases records.len(),
{
    let front = records.drop_last();
    if i < records.len() - 1 {
        assert forall|a: int, b: int| 0 <= a < b < front.len() implies front[a].identity()
            != front[b].identity() by {
            assert(front[a] == records[a] && front[b] == records[b]);
        }
        assert(front[i] == records[i]);
        lemma_round_map_of_distinct(front, i);
        assert(records[i].identity() != records[records.len() - 1].identity());
    }
}

/// The difference between a round and itself is empty, whatever the round holds.
pub proof fn law_diff_of_equal_rounds_is_empty<E: Entity>(
    records: Seq<E>,
    out: Seq<SnapshotDiffEntry<E>>,
)
    requires
        is_diff_of(round_map(records), round_map(records), out),
    ensures
        out.len() == 0,
{
    if out.len() > 0 {
        assert(reported(round_map(records), round_map(records), out[0].identity@));
    }
}

/// An identity that only the first round holds is reported as removed, with the record of
/// the first round and none of the second.
pub proof fn law_missing_from_second_is_removed<E: Entity>(
    first: Map<Seq<char>, E>,
    second: Map<Seq<char>, E>,
    out: Seq<SnapshotDiffEntry<E>>,
    id: Seq<char>,
)
    requires
        is_diff_of(first, second, out),
        first.contains_key(id),
        !second.contains_key(id),
    ensures
        exists|i: int|
            0 <= i < out.len() && (#[trigger] out[i]).identity@ == id && out[i].spec_kind()
                == DiffKind::Removed && out[i].first == Some(first[id]) && out[i].second is None,
{
    assert(reported(first, second, id));
}

/// An identity that only the second round holds is reported as added, with the record of
/// the second round and none of the first.
pub proof fn law_missing_from_first_is_added<E: Entity>(
    first: Map<Seq<char>, E>,
    second: Map<Seq<char>, E>,
    out: Seq<SnapshotDiffEntry<E>>,
    id: Seq<char>,
)
    requires
        is_diff_of(first, second, out),
        !first.contains_key(id),
        second.contains_key(id),
    ensures
        exists|i: int|
            0 <= i < out.len() && (#[trigger] out[i]).identity@ == id && out[i].spec_kind()
                == DiffKind::Added && out[i].second == Some(second[id]) && out[i].first is None,
{
    assert(reported(first, second, id));
}

/// An identity that both rounds hold is reported if and only if its data differ, and then as
/// changed, with the records of both rounds.
pub proof fn law_present_in_both<E: Entity>(
    first: Map<Seq<char>, E>,
    second: Map<Seq<char>, E>,
    out: Seq<SnapshotDiffEntry<E>>,
    id: Seq<char>,
)
    requires
        is_diff_of(first, second, out),
        first.contains_key(id),
        second.contains_key(id),
    ensures
        first[id].fields() == second[id].fields() ==> forall|i: int|
            0 <= i < out.len() ==> (#[trigger] out[i]).identity@ != id,
        first[id].fields() != second[id].fields() ==> exists|i: int|
            0 <= i < out.len() && (#[trigger] out[i]).identity@ == id && out[i].spec_kind()
                == DiffKind::Changed && out[i].first == Some(first[id]) && out[i].second == Some(
                second[id],
            ),
{
    if first[id].fields() != second[id].fields() {
        assert(reported(first, second, id));
    }
}

/// When the second round is empty, every identity of the first round is reported as removed,
/// and nothing else is reported.
pub proof fn law_empty_second_round_removes_all<E: Entity>(
    first: Map<Seq<char>, E>,
    out: Seq<SnapshotDiffEntry<E>>,
)
    requires
        is_diff_of(first, Map::<Seq<char>, E>::empty(), out),
    ensures
        forall|i: int|
            0 <= i < out.len() ==> (#[trigger] out[i]).spec_kind() == DiffKind::Removed
                && first.contains_key(out[i].identity@),
        forall|id: Seq<char>| #[trigger]
            first.contains_key(id) ==> exists|i: int|
                0 <= i < out.len() && (#[trigger] out[i]).identity@ == id,
{
    let second = Map::<Seq<char>, E>::empty();
    assert forall|i: int| 0 <= i < out.len() implies (#[trigger] out[i]).spec_kind()
        == DiffKind::Removed && first.contains_key(out[i].identity@) by {
        assert(reported(first, second, out[i].identity@));
    }
    assert forall|id: Seq<char>| #[trigger] first.contains_key(id) implies exists|i: int|
        0 <= i < out.len() && (#[trigger] out[i]).identity@ == id by {
        assert(reported(first, second, id));
    }
}

/// The order in which the records of a round arrive is immaterial: two rounds of the same
/// records, each without a repeated identity, are the same round.
pub proof fn law_round_order_is_immaterial<E: Entity>(a: Seq<E>, b: Seq<E>)
    requires
        distinct_identities(a),
        distinct_identities(b),
        a.to_multiset() == b.to_multiset(),
    ensures
        round_map(a) == round_map(b),
{
    a.to_multiset_ensures();
    b.to_multiset_ensures();
    lemma_round_map_keys(a);
    lemma_round_map_keys(b);
    assert forall|id: Seq<char>| round_map(a).contains_key(id) implies round_map(b).contains_key(
        id,
    ) && round_map(a)[id] == round_map(b)[id] by {
        let i = choose|i: int| 0 <= i < a.len() && (#[trigger] a[i]).identity() == id;
        lemma_round_map_of_distinct(a, i);
        assert(a.contains(a[i]));
        assert(b.to_multiset().count(a[i]) > 0);
        assert(b.contains(a[i]));
        let j = choose|j: int| 0 <= j < b.len() && b[j] == a[i];
        lemma_round_map_of_distinct(b, j);
    }
    assert forall|id: Seq<char>| round_map(b).contains_key(id) implies round_map(a).contains_key(
        id,
    ) by {
        let j = choose|j: int| 0 <= j < b.len() && (#[trigger] b[j]).identity() == id;
        assert(b.contains(b[j]));
        assert(a.to_multiset().count(b[j]) > 0);
        assert(a.contains(b[j]));
        let i = choose|i: int| 0 <= i < a.len() && a[i] == b[j];
        assert(a[i].identity() == id);
    }
    assert(round_map(a) =~= round_map(b));
}

/// The difference is determined by the two rounds: two sequences that are both the
/// difference of the same rounds are the same, entry by entry.
pub proof fn law_diff_is_determined<E: Entity>(
    first: Map<Seq<char>, E>,
    second: Map<Seq<char>, E>,
    a: Seq<SnapshotDiffEntry<E>>,
    b: Seq<SnapshotDiffEntry<E>>,
)
    requires
        is_diff_of(first, second, a),
        is_diff_of(first, second, b),
    ensures
        a.len() == b.len(),
        forall|i: int|
            0 <= i < a.len() ==> (#[trigger] a[i]).identity@ == b[i].identity@ && a[i].first
                == b[i].first && a[i].second == b[i].second,
{
    lemma_same_identities_same_places(a, b, a.len() as int);
    lemma_same_identities_same_places(b, a, b.len() as int);
}

/// Two ascending sequences over the same identities agree place by place.
proof fn lemma_same_identities_same_places<E>(
    a: Seq<SnapshotDiffEntry<E>>,
    b: Seq<SnapshotDiffEntry<E>>,
    n: int,
)
    requires
        ascending(a),
        ascending(b),
        forall|i: int| 0 <= i < a.len() ==> holds(b, (#[trigger] a[i]).identity@),
        forall|i: int| 0 <= i < b.len() ==> holds(a, (#[trigger] b[i]).identity@),
        0 <= n <= a.len(),
    ensures
        n <= b.len(),
        forall|i: int| 0 <= i < n ==> (#[trigger] a[i]).identity@ == b[i].identity@,
    decreases n,
{
    if n > 0 {
        lemma_same_identities_same_places(a, b, n - 1);
        let k = n - 1;
        // a[k] sits somewhere in b, and not below k, where b agrees with a.
        let p = position(b, a[k].identity@);
        assert(holds(b, a[k].identity@));
        lemma_text_lt_irreflexive(a[k].identity@);
        if p < k {
            assert(b[p].identity@ == a[p].identity@);
            assert(text_lt(a[p].identity@, a[k].identity@));
        }
        if p > k {
            // then b[k] comes before a[k], and must sit in a below k, where a agrees with b.
            assert(text_lt(b[k].identity@, b[p].identity@));
            assert(holds(a, b[k].identity@));
            let q = position(a, b[k].identity@);
            lemma_text_lt_irreflexive(b[k].identity@);
            if q < k {
                assert(a[q].identity@ == b[q].identity@);
                assert(text_lt(b[q].identity@, b[k].identity@));
            } else if q == k {
            } else {
                assert(text_lt(a[k].identity@, a[q].identity@));
                crate::text::lemma_text_lt_asymmetric(a[k].identity@, a[q].identity@);
            }
        }
    }
}

} // verus!
