//! Snapshots and their index: the numbering of collection rounds.

use vstd::prelude::*;
use vstd::string::*;
use crate::text::{decimal_text, number_text};

verus! {

/// A point in time: whole seconds since the Unix epoch, and the nanoseconds into that second.
#[derive(Clone, Copy, Debug, PartialEq, Eq, Structural)]
pub struct Timestamp {
    pub seconds: i64,
    pub nanos: u32,
}

impl Timestamp {
    /// The nanoseconds stay below one second.
    pub open spec fn wf(&self) -> bool {
        self.nanos < 1_000_000_000
    }

    /// The point in time as nanoseconds since the Unix epoch.
    pub open spec fn nanos_since_epoch(&self) -> int {
        self.seconds * 1_000_000_000 + self.nanos
    }

    /// Makes a timestamp, unless `nanos` is a second or more.
    pub fn new(seconds: i64, nanos: u32) -> (t: Option<Timestamp>)
        ensures
            nanos < 1_000_000_000 ==> t == Some(Timestamp { seconds, nanos }),
            nanos >= 1_000_000_000 ==> t is None,
    {
        if nanos < 1_000_000_000 {
            Some(Timestamp { seconds, nanos })
        } else {
            None
        }
    }

    /// The whole milliseconds that pass from `self` until `later`, or `None` where `later`
    /// lies before `self`.
    pub fn millis_until(&self, later: &Timestamp) -> (elapsed: Option<u128>)
        ensures
            later.nanos_since_epoch() < self.nanos_since_epoch() ==> elapsed is None,
            later.nanos_since_epoch() >= self.nanos_since_epoch() ==> elapsed == Some(
                ((later.nanos_since_epoch() - self.nanos_since_epoch()) / 1_000_000) as u128,
            ),
    {
        let from: i128 = (self.seconds as i128) * 1_000_000_000 + (self.nanos as i128);
        let to: i128 = (later.seconds as i128) * 1_000_000_000 + (later.nanos as i128);
        if to < from {
            None
        } else {
            let span: u128 = (to - from) as u128;
            Some(span / 1_000_000)
        }
    }
}

/// The metadata of one collection round.
pub struct Snapshot {
    pub number: i32,
    pub timestamp: Timestamp,
    pub comment: String,
}

/// Why an operation on the snapshot index fails.
#[derive(Clone, Copy, Debug, PartialEq, Eq, Structural)]
pub enum SnapshotError {
    /// The index holds no snapshot of this number.
    NotFound { number: i32 },
    /// The index holds the highest number there is: none is left for a new snapshot.
    NumbersExhausted,
}

/// `n` is the number that the next snapshot gets: 0 for an empty index, and otherwise one more
/// than the highest number in it.
pub open spec fn is_next_number(snapshots: Seq<Snapshot>, n: int) -> bool {
    if snapshots.len() == 0 {
        n == 0
    } else {
        &&& forall|i: int| 0 <= i < snapshots.len() ==> (#[trigger] snapshots[i]).number < n
        &&& exists|i: int| 0 <= i < snapshots.len() && (#[trigger] snapshots[i]).number + 1 == n
    }
}

/// Some snapshot of the index has the number `number`.
pub open spec fn has_number(snapshots: Seq<Snapshot>, number: int) -> bool {
    exists|i: int| 0 <= i < snapshots.len() && (#[trigger] snapshots[i]).number == number
}

/// The number for the next snapshot: 0 for an empty index, and otherwise one more than the
/// highest number in it. Fails only where that number does not fit.
pub fn next_number(snapshots: &Vec<Snapshot>) -> (r: Result<i32, SnapshotError>)
    ensures
        r is Ok <==> !has_number(snapshots@, i32::MAX as int),
        r matches Ok(n) ==> is_next_number(snapshots@, n as int),
        r matches Err(e) ==> e == SnapshotError::NumbersExhausted,
{
    if snapshots.len() == 0 {
        return Ok(0);
    }
    let mut highest: i32 = snapshots[0].number;
    let mut i: usize = 1;
    while i < snapshots.len()
        invariant
            1 <= i <= snapshots@.len(),
            forall|j: int| 0 <= j < i ==> (#[trigger] snapshots@[j]).number <= highest,
            exists|j: int| 0 <= j < i && (#[trigger] snapshots@[j]).number == highest,
        decreases snapshots@.len() - i,
    {
        if snapshots[i].number > highest {
            highest = snapshots[i].number;
        }
        i += 1;
    }
    if highest == i32::MAX {
        Err(SnapshotError::NumbersExhausted)
    } else {
        let ghost at = choose|j: int| 0 <= j < snapshots@.len() && (#[trigger] snapshots@[j]).number == highest;
        assert(snapshots@[at].number + 1 == highest + 1);
        Ok(highest + 1)
    }
}

/// Records a new snapshot at the end of the index and returns its metadata. Nothing that the
/// index held is changed.
pub fn create(
    snapshots: &mut Vec<Snapshot>,
    number: i32,
    timestamp: Timestamp,
    comment: String,
) -> (created: Snapshot)
    ensures
        final(snapshots)@ == old(snapshots)@.push(created),
        created.number == number,
        created.timestamp == timestamp,
        created.comment == comment,
{
    let kept = comment.clone();
    snapshots.push(Snapshot { number, timestamp, comment });
    Snapshot { number, timestamp, comment: kept }
}

/// Finds the first snapshot of the index that has the number `number`.
pub fn find(snapshots: &Vec<Snapshot>, number: i32) -> (r: Result<&Snapshot, SnapshotError>)
    ensures
        r is Ok <==> has_number(snapshots@, number as int),
        r matches Ok(found) ==> exists|i: int|
            0 <= i < snapshots@.len() && *found == #[trigger] snapshots@[i] && found.number
                == number && forall|j: int|
                0 <= j < i ==> (#[trigger] snapshots@[j]).number != number,
        r matches Err(e) ==> e == (SnapshotError::NotFound { number }),
{
    let mut i: usize = 0;
    while i < snapshots.len()
        invariant
            i <= snapshots@.len(),
            forall|j: int| 0 <= j < i ==> (#[trigger] snapshots@[j]).number != number,
        decreases snapshots@.len() - i,
    {
        if snapshots[i].number == number {
            return Ok(&snapshots[i]);
        }
        i += 1;
    }
    Err(SnapshotError::NotFound { number })
}

/// Starts a new collection round: gives it the next number and records it in the index, with
/// the time at which the round begins and the user's comment.
pub fn perform_snapshot(
    snapshots: &mut Vec<Snapshot>,
    now: Timestamp,
    snapshot_comment: String,
) -> (r: Result<i32, SnapshotError>)
    ensures
        r is Ok <==> !has_number(old(snapshots)@, i32::MAX as int),
        r matches Ok(n) ==> {
            &&& is_next_number(old(snapshots)@, n as int)
            &&& final(snapshots)@.len() == old(snapshots)@.len() + 1
            &&& final(snapshots)@.drop_last() == old(snapshots)@
            &&& final(snapshots)@.last().number == n
            &&& final(snapshots)@.last().timestamp == now
            &&& final(snapshots)@.last().comment == snapshot_comment
        },
        r matches Err(e) ==> e == SnapshotError::NumbersExhausted && final(snapshots)@ == old(
            snapshots,
        )@,
{
    match next_number(snapshots) {
        Ok(number) => {
            let _ = create(snapshots, number, now, snapshot_comment);
            assert(snapshots@.drop_last() =~= old(snapshots)@);
            Ok(number)
        },
        Err(e) => Err(e),
    }
}

/// The begin row of a diff between two snapshots of the index, after checking that the index
/// holds both numbers. The begin number is checked first.
pub fn read_begin_end_snapshot_from_user(
    snapshots: &Vec<Snapshot>,
    begin_snapshot: i32,
    end_snapshot: i32,
) -> (r: Result<&Snapshot, SnapshotError>)
    ensures
        r is Ok <==> has_number(snapshots@, begin_snapshot as int) && has_number(
            snapshots@,
            end_snapshot as int,
        ),
        r matches Ok(found) ==> exists|i: int|
            0 <= i < snapshots@.len() && *found == #[trigger] snapshots@[i] && found.number
                == begin_snapshot && forall|j: int|
                0 <= j < i ==> (#[trigger] snapshots@[j]).number != begin_snapshot,
        r matches Err(e) ==> e == (SnapshotError::NotFound {
            number: if has_number(snapshots@, begin_snapshot as int) {
                end_snapshot
            } else {
                begin_snapshot
            },
        }),
{
    match find(snapshots, begin_snapshot) {
        Ok(begin_row) => match find(snapshots, end_snapshot) {
            Ok(_) => Ok(begin_row),
            Err(e) => Err(e),
        },
        Err(e) => Err(e),
    }
}

/// An index that numbers its snapshots 0, 1, 2, … in the order of their creation gives the
/// next snapshot the count of those it holds, whatever their comments and timestamps are.
pub proof fn law_next_number_counts_snapshots(snapshots: Seq<Snapshot>, n: int)
    requires
        forall|i: int| 0 <= i < snapshots.len() ==> (#[trigger] snapshots[i]).number == i,
        is_next_number(snapshots, n),
    ensures
        n == snapshots.len(),
{
    if snapshots.len() > 0 {
        assert(snapshots[snapshots.len() - 1].number < n);
    }
}

/// An index that numbers its snapshots 0, 1, 2, … still does so after a snapshot with the
/// next number has been recorded at its end: so after N snapshots have been created in an
/// empty index, one after the other, the next number is N.
pub proof fn law_numbering_goes_on(snapshots: Seq<Snapshot>, created: Snapshot)
    requires
        forall|i: int| 0 <= i < snapshots.len() ==> (#[trigger] snapshots[i]).number == i,
        is_next_number(snapshots, created.number as int),
    ensures
        forall|i: int|
            0 <= i < snapshots.push(created).len() ==> (#[trigger] snapshots.push(
                created,
            )[i]).number == i,
        is_next_number(snapshots.push(created), snapshots.len() as int + 1),
{
    law_next_number_counts_snapshots(snapshots, created.number as int);
    let after = snapshots.push(created);
    assert(after[snapshots.len() as int].number + 1 == snapshots.len() + 1);
}

/// A number given by `is_next_number` is new: no snapshot of the index has it, and it lies
/// above all of theirs.
pub proof fn law_next_number_is_new(snapshots: Seq<Snapshot>, n: int)
    requires
        is_next_number(snapshots, n),
    ensures
        !has_number(snapshots, n),
        forall|i: int| 0 <= i < snapshots.len() ==> (#[trigger] snapshots[i]).number < n,
{
}

/// The directory, below the working directory, that holds the snapshots.
pub const SNAPSHOT_DIRECTORY: &'static str = "yb_stats.snapshots";

/// The file, in the snapshot directory, that holds the index: one row for each snapshot.
pub const SNAPSHOT_INDEX: &'static str = "snapshot.index";

/// The place of an entity type's rows within the snapshot directory: the snapshot's number
/// in decimal notation, a slash, and the name of the entity type.
pub open spec fn entity_file_text(number: i32, entity_type: Seq<char>) -> Seq<char> {
    decimal_text(number as int) + seq!['/'] + entity_type
}

/// The name of the storage area of a snapshot within the snapshot directory: its number in
/// decimal notation.
pub fn snapshot_area(number: i32) -> (name: String)
    ensures
        name@ == decimal_text(number as int),
{
    number_text(number as i64)
}

/// The place, within the snapshot directory, of the rows that a snapshot keeps of one entity
/// type.
pub fn entity_file(number: i32, entity_type: &str) -> (place: String)
    ensures
        place@ == entity_file_text(number, entity_type@),
{
    proof {
        reveal_strlit("/");
    }
    let mut place = snapshot_area(number);
    place.append("/");
    place.append(entity_type);
    assert(place@ =~= entity_file_text(number, entity_type@));
    place
}

} // verus!
