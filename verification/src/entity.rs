//! Entity records in their general shape: an identity, the endpoint and time of the
//! observation, and named fields of text, counters and gauges; and the field-by-field
//! difference between two observations of one entity.

use vstd::prelude::*;
use vstd::string::*;
use crate::diff::Entity;
use crate::snapshot::Timestamp;

verus! {

/// The value of one field of an entity.
pub enum FieldValue {
    Text(String),
    /// A counter that only grows while the process that keeps it runs.
    Counter(i64),
    /// A gauge, held as the bit pattern of its value.
    Gauge(u64),
}

/// The model of a `FieldValue`.
pub ghost enum FieldValueView {
    Text(Seq<char>),
    Counter(i64),
    Gauge(u64),
}

impl View for FieldValue {
    type V = FieldValueView;

    open spec fn view(&self) -> FieldValueView {
        match *self {
            FieldValue::Text(t) => FieldValueView::Text(t@),
            FieldValue::Counter(c) => FieldValueView::Counter(c),
            FieldValue::Gauge(g) => FieldValueView::Gauge(g),
        }
    }
}

impl FieldValue {
    /// Tells whether two values are the same: of the same kind, and equal.
    pub fn same(&self, other: &FieldValue) -> (b: bool)
        ensures
            b == (self@ == other@),
    {
        match self {
            FieldValue::Text(a) => match other {
                FieldValue::Text(b) => *a == *b,
                _ => false,
            },
            FieldValue::Counter(a) => match other {
                FieldValue::Counter(b) => *a == *b,
                _ => false,
            },
            FieldValue::Gauge(a) => match other {
                FieldValue::Gauge(b) => *a == *b,
                _ => false,
            },
        }
    }

    /// Copies the value.
    pub fn copy(&self) -> (c: FieldValue)
        ensures
            c@ == self@,
    {
        match self {
            FieldValue::Text(a) => FieldValue::Text(a.clone()),
            FieldValue::Counter(a) => FieldValue::Counter(*a),
            FieldValue::Gauge(a) => FieldValue::Gauge(*a),
        }
    }
}

/// One observation of one entity at one point in time.
pub struct EntityRecord {
    /// The key by which the entity is recognised from one round to the next.
    pub identity: String,
    /// The endpoint that reported the entity.
    pub hostname_port: String,
    pub timestamp: Timestamp,
    /// The fields of the entity, by name, in the order of the report.
    pub fields: Vec<(String, FieldValue)>,
}

/// The models of the fields of a record.
pub open spec fn field_views(fields: Seq<(String, FieldValue)>) -> Seq<(Seq<char>, FieldValueView)> {
    fields.map_values(|f: (String, FieldValue)| (f.0@, f.1@))
}

impl Entity for EntityRecord {
    /// The names and values of the fields, in their order.
    type Fields = Seq<(Seq<char>, FieldValueView)>;

    open spec fn identity(&self) -> Seq<char> {
        self.identity@
    }

    open spec fn fields(&self) -> Seq<(Seq<char>, FieldValueView)> {
        field_views(self.fields@)
    }

    fn identity_of(&self) -> (id: String) {
        self.identity.clone()
    }

    fn same_fields(&self, other: &Self) -> (same: bool) {
        if self.fields.len() != other.fields.len() {
            assert(field_views(self.fields@).len() != field_views(other.fields@).len());
            return false;
        }
        let mut i: usize = 0;
        while i < self.fields.len()
            invariant
                i <= self.fields@.len(),
                self.fields@.len() == other.fields@.len(),
                forall|j: int|
                    0 <= j < i ==> (#[trigger] field_views(self.fields@)[j]) == field_views(
                        other.fields@,
                    )[j],
            decreases self.fields@.len() - i,
        {
            let same_name = self.fields[i].0 == other.fields[i].0;
            let same_value = self.fields[i].1.same(&other.fields[i].1);
            if !same_name || !same_value {
                assert(field_views(self.fields@)[i as int] != field_views(other.fields@)[i as int]);
                return false;
            }
            i += 1;
        }
        assert(field_views(self.fields@) =~= field_views(other.fields@));
        true
    }
}

/// How a counter moved from one round to the next.
#[derive(Clone, Copy, Debug, PartialEq, Eq, Structural)]
pub enum CounterChange {
    /// The counter fell: the process was restarted or the counter was reset. The new value
    /// replaces the old one, and there is no rate.
    Reset { first: i64, second: i64 },
    /// The counter grew by `delta`. The rate is given in thousandths per second, rounded
    /// down; there is none where no time has passed between the rounds.
    Advanced { delta: u64, rate: Option<u128> },
}

/// The rate, in thousandths per second and rounded down, of a counter that grew by `delta`
/// in `elapsed_ms` milliseconds.
pub open spec fn rate_of(delta: int, elapsed_ms: int) -> int {
    delta * 1_000_000 / elapsed_ms
}

/// How a counter moved from `first` to `second` in the time `elapsed_ms`, where that time is
/// known.
pub open spec fn counter_change_of(first: i64, second: i64, elapsed_ms: Option<u128>) -> CounterChange {
    if second < first {
        CounterChange::Reset { first, second }
    } else {
        CounterChange::Advanced {
            delta: (second - first) as u64,
            rate: match elapsed_ms {
                Some(ms) => if ms > 0 {
                    Some(rate_of(second - first, ms as int) as u128)
                } else {
                    None
                },
                None => None,
            },
        }
    }
}

/// Tells how a counter moved from `first` to `second`. A counter that fell was reset: it has
/// no rate, and never a negative one. A counter that did not fall has the rate of its growth
/// over the time that passed, where that time is known and more than nothing.
pub fn counter_change(first: i64, second: i64, elapsed_ms: Option<u128>) -> (c: CounterChange)
    ensures
        c == counter_change_of(first, second, elapsed_ms),
        second < first <==> c is Reset,
{
    if second < first {
        return CounterChange::Reset { first, second };
    }
    let delta: u64 = ((second as i128) - (first as i128)) as u64;
    let rate = match elapsed_ms {
        Some(ms) => {
            if ms > 0 {
                let scaled: u128 = (delta as u128) * 1_000_000;
                assert(scaled / ms <= scaled) by (nonlinear_arith)
                    requires
                        ms > 0,
                        scaled >= 0,
                ;
                Some(scaled / ms)
            } else {
                None
            }
        },
        None => None,
    };
    CounterChange::Advanced { delta, rate }
}

/// What became of one field between two observations of an entity.
#[derive(Clone, Copy, Debug, PartialEq, Eq, Structural)]
pub enum FieldChange {
    /// Both observations hold the same value.
    Same,
    /// Only the second observation has the field.
    Added,
    /// Only the first observation has the field.
    Removed,
    /// The value was replaced by another.
    Replaced,
    /// The field is a counter in both observations, and its value moved.
    Counter(CounterChange),
}

/// One field of an entity in two observations.
pub struct FieldDelta {
    pub name: String,
    /// The value in the first observation, if it has the field.
    pub first: Option<FieldValue>,
    /// The value in the second observation, if it has the field.
    pub second: Option<FieldValue>,
    pub change: FieldChange,
}

/// The model of a `FieldDelta`.
pub ghost struct FieldDeltaView {
    pub name: Seq<char>,
    pub first: Option<FieldValueView>,
    pub second: Option<FieldValueView>,
    pub change: FieldChange,
}

impl View for FieldDelta {
    type V = FieldDeltaView;

    open spec fn view(&self) -> FieldDeltaView {
        FieldDeltaView {
            name: self.name@,
            first: match self.first {
                Some(v) => Some(v@),
                None => None,
            },
            second: match self.second {
                Some(v) => Some(v@),
                None => None,
            },
            change: self.change,
        }
    }
}

/// The models of a sequence of field deltas.
pub open spec fn delta_views(deltas: Seq<FieldDelta>) -> Seq<FieldDeltaView> {
    deltas.map_values(|d: FieldDelta| d@)
}

/// The value of the first field named `name` from the place `start` on, if there is one.
pub open spec fn value_from(
    fields: Seq<(Seq<char>, FieldValueView)>,
    name: Seq<char>,
    start: int,
) -> Option<FieldValueView>
    decreases fields.len() - start,
{
    if start < 0 || start >= fields.len() {
        None
    } else if fields[start].0 == name {
        Some(fields[start].1)
    } else {
        value_from(fields, name, start + 1)
    }
}

/// The value of the field named `name`: that of the first field of this name, if there is
/// one.
pub open spec fn value_of(fields: Seq<(Seq<char>, FieldValueView)>, name: Seq<char>) -> Option<
    FieldValueView,
> {
    value_from(fields, name, 0)
}

/// What became of a field whose values in the two observations are `first` and `second`.
pub open spec fn change_of(
    first: Option<FieldValueView>,
    second: Option<FieldValueView>,
    elapsed_ms: Option<u128>,
) -> FieldChange {
    match (first, second) {
        (None, None) => FieldChange::Same,
        (None, Some(_)) => FieldChange::Added,
        (Some(_), None) => FieldChange::Removed,
        (Some(a), Some(b)) => if a == b {
            FieldChange::Same
        } else {
            match (a, b) {
                (FieldValueView::Counter(x), FieldValueView::Counter(y)) => FieldChange::Counter(
                    counter_change_of(x, y, elapsed_ms),
                ),
                _ => FieldChange::Replaced,
            }
        },
    }
}

/// The delta of the field `i` of the second observation.
pub open spec fn second_delta(
    first: Seq<(Seq<char>, FieldValueView)>,
    second: Seq<(Seq<char>, FieldValueView)>,
    elapsed_ms: Option<u128>,
    i: int,
) -> FieldDeltaView {
    FieldDeltaView {
        name: second[i].0,
        first: value_of(first, second[i].0),
        second: Some(second[i].1),
        change: change_of(value_of(first, second[i].0), Some(second[i].1), elapsed_ms),
    }
}

/// The deltas of the first `n` fields of the first observation that the second one lacks.
pub open spec fn removed_deltas(
    first: Seq<(Seq<char>, FieldValueView)>,
    second: Seq<(Seq<char>, FieldValueView)>,
    n: int,
) -> Seq<FieldDeltaView>
    decreases n,
{
    if n <= 0 {
        Seq::empty()
    } else {
        let front = removed_deltas(first, second, n - 1);
        if value_of(second, first[n - 1].0) is None {
            front.push(
                FieldDeltaView {
                    name: first[n - 1].0,
                    first: Some(first[n - 1].1),
                    second: None,
                    change: FieldChange::Removed,
                },
            )
        } else {
            front
        }
    }
}

/// The field-by-field difference between two observations: a delta for each field of the
/// second observation, in their order, and then one for each field that only the first has.
pub open spec fn deltas_of(
    first: Seq<(Seq<char>, FieldValueView)>,
    second: Seq<(Seq<char>, FieldValueView)>,
    elapsed_ms: Option<u128>,
) -> Seq<FieldDeltaView> {
    Seq::new(second.len(), |i: int| second_delta(first, second, elapsed_ms, i)) + removed_deltas(
        first,
        second,
        first.len() as int,
    )
}

/// Finds the value of the field named `name`.
fn find_value<'a>(fields: &'a Vec<(String, FieldValue)>, name: &String) -> (found: Option<
    &'a FieldValue,
>)
    ensures
        (match found {
            Some(v) => Some(v@),
            None => None,
        }) == value_of(field_views(fields@), name@),
{
    let ghost all = field_views(fields@);
    let mut i: usize = 0;
    while i < fields.len()
        invariant
            i <= fields@.len(),
            all == field_views(fields@),
            value_of(all, name@) == value_from(all, name@, i as int),
        decreases fields@.len() - i,
    {
        assert(all[i as int] == (fields@[i as int].0@, fields@[i as int].1@));
        if fields[i].0 == *name {
            return Some(&fields[i].1);
        }
        i += 1;
    }
    None
}

/// Computes the field-by-field difference between two observations of an entity: for each
/// field of the second observation what became of it since the first, and for each field
/// that only the first observation has, that it was removed. A counter that fell is reported
/// as reset, with both values and without a rate. The time that passed is that between the
/// two observations.
pub fn field_deltas(first: &EntityRecord, second: &EntityRecord) -> (deltas: Vec<FieldDelta>)
    ensures
        delta_views(deltas@) == deltas_of(
            field_views(first.fields@),
            field_views(second.fields@),
            elapsed_between(first.timestamp, second.timestamp),
        ),
{
    let elapsed_ms = first.timestamp.millis_until(&second.timestamp);
    let ghost f = field_views(first.fields@);
    let ghost s = field_views(second.fields@);
    let ghost changed = Seq::new(s.len(), |i: int| second_delta(f, s, elapsed_ms, i));
    let mut deltas: Vec<FieldDelta> = Vec::new();
    let mut i: usize = 0;
    assert(delta_views(deltas@) =~= changed.take(0));
    while i < second.fields.len()
        invariant
            i <= second.fields@.len(),
            f == field_views(first.fields@),
            s == field_views(second.fields@),
            changed == Seq::new(s.len(), |i: int| second_delta(f, s, elapsed_ms, i)),
            delta_views(deltas@) == changed.take(i as int),
        decreases second.fields@.len() - i,
    {
        let ghost before = deltas@;
        let name = &second.fields[i].0;
        let value = &second.fields[i].1;
        assert(s[i as int] == (name@, value@));
        let earlier = find_value(&first.fields, name);
        let (first_value, change) = match earlier {
            None => (None, FieldChange::Added),
            Some(old_value) => {
                let change = if old_value.same(value) {
                    FieldChange::Same
                } else {
                    match old_value {
                        FieldValue::Counter(x) => match value {
                            FieldValue::Counter(y) => FieldChange::Counter(
                                counter_change(*x, *y, elapsed_ms),
                            ),
                            _ => FieldChange::Replaced,
                        },
                        _ => FieldChange::Replaced,
                    }
                };
                (Some(old_value.copy()), change)
            },
        };
        let delta = FieldDelta {
            name: name.clone(),
            first: first_value,
            second: Some(value.copy()),
            change,
        };
        assert(delta@ == changed[i as int]);
        deltas.push(delta);
        proof {
            assert(delta_views(deltas@) =~= delta_views(before).push(changed[i as int]));
            assert(changed.take(i + 1) =~= changed.take(i as int).push(changed[i as int]));
        }
        i += 1;
    }
    assert(changed.take(changed.len() as int) =~= changed);
    let mut k: usize = 0;
    assert(delta_views(deltas@) =~= changed + removed_deltas(f, s, 0));
    while k < first.fields.len()
        invariant
            k <= first.fields@.len(),
            f == field_views(first.fields@),
            s == field_views(second.fields@),
            delta_views(deltas@) == changed + removed_deltas(f, s, k as int),
        decreases first.fields@.len() - k,
    {
        let ghost before = deltas@;
        let name = &first.fields[k].0;
        let value = &first.fields[k].1;
        assert(f[k as int] == (name@, value@));
        if find_value(&second.fields, name).is_none() {
            let delta = FieldDelta {
                name: name.clone(),
                first: Some(value.copy()),
                second: None,
                change: FieldChange::Removed,
            };
            let ghost gone = FieldDeltaView {
                name: f[k as int].0,
                first: Some(f[k as int].1),
                second: None,
                change: FieldChange::Removed,
            };
            assert(delta@ == gone);
            deltas.push(delta);
            assert(delta_views(deltas@) =~= delta_views(before).push(gone));
            assert(removed_deltas(f, s, k + 1) == removed_deltas(f, s, k as int).push(gone));
            assert(delta_views(deltas@) =~= changed + removed_deltas(f, s, k + 1));
        }
        k += 1;
    }
    deltas
}

/// The whole milliseconds that pass from `first` until `second`, or `None` where `second`
/// lies before `first`.
pub open spec fn elapsed_between(first: Timestamp, second: Timestamp) -> Option<u128> {
    if second.nanos_since_epoch() < first.nanos_since_epoch() {
        None
    } else {
        Some(((second.nanos_since_epoch() - first.nanos_since_epoch()) / 1_000_000) as u128)
    }
}

} // verus!
