//! Change events and their normalization into signed deltas.
//!
//! A raw per-table change event carries the row's identity column, the
//! transaction identifier used as logical time, and the new column values.
//! Normalization resolves the identity to a 64-bit key, optionally extracts
//! a foreign-key column, and turns each event into one or two signed deltas:
//! an insert asserts the new row, a delete retracts by bare key, and an
//! update retracts the old binding before asserting the new one at the same
//! logical time.

use vstd::prelude::*;

use crate::keys::{key_to_u64, spec_key_of, Keys};
use crate::record::{rec_lookup, DBRecord, RecView};
use crate::scalar::{ScalarV, ScalarValue};

verus! {

/// The identity column of a changed row and its value.
#[derive(Debug)]
pub struct PKey {
    pub col: String,
    pub val: ScalarValue,
}

/// The payload of an insert event: the full new row.
#[derive(Debug)]
pub struct Insert(pub DBRecord);

/// The payload of an update event: the full replacement row.
#[derive(Debug)]
pub struct Update(pub DBRecord);

/// What a change event did to its row.
#[derive(Debug)]
pub enum WalData {
    Insert(Insert),
    Update(Update),
    Delete,
}

/// One normalized change event of one row in one table.
#[derive(Debug)]
pub struct WalEvent {
    pub timestamp: String,
    pub xid: u64,
    pub pkey: PKey,
    pub data: WalData,
}

impl Clone for PKey {
    /// Clones the identity column, keeping its name and value.
    fn clone(&self) -> (r: Self)
        ensures
            r.col@ == self.col@,
            r.val@ == self.val@,
    {
        PKey { col: self.col.clone(), val: self.val.clone() }
    }
}

impl Clone for WalData {
    /// Clones the event payload, keeping its kind and column values.
    fn clone(&self) -> (r: Self)
        ensures
            r is Insert <==> self is Insert,
            r is Update <==> self is Update,
            r is Delete <==> self is Delete,
            spec_payload(r) == spec_payload(*self),
    {
        match self {
            WalData::Insert(p) => WalData::Insert(Insert(p.0.clone())),
            WalData::Update(p) => WalData::Update(Update(p.0.clone())),
            WalData::Delete => WalData::Delete,
        }
    }
}

impl Clone for WalEvent {
    /// Clones the event, keeping every field's value.
    fn clone(&self) -> (r: Self)
        ensures
            r.timestamp@ == self.timestamp@,
            r.xid == self.xid,
            r.pkey.col@ == self.pkey.col@,
            r.pkey.val@ == self.pkey.val@,
            r.data is Insert <==> self.data is Insert,
            r.data is Update <==> self.data is Update,
            r.data is Delete <==> self.data is Delete,
            spec_payload(r.data) == spec_payload(self.data),
    {
        WalEvent {
            timestamp: self.timestamp.clone(),
            xid: self.xid,
            pkey: self.pkey.clone(),
            data: self.data.clone(),
        }
    }
}

/// The column values an event carries: the new row for inserts and
/// updates, nothing for deletes.
pub open spec fn spec_payload(data: WalData) -> RecView {
    match data {
        WalData::Insert(p) => p.0@,
        WalData::Update(p) => p.0@,
        WalData::Delete => Seq::<(Seq<char>, ScalarV)>::empty(),
    }
}

/// The scalar found in the payload under the requested foreign-key column:
/// null when no column was requested or the payload does not bind it.
pub open spec fn spec_fk_scalar(rk: Option<Seq<char>>, payload: RecView) -> ScalarV {
    match rk {
        None => ScalarV::Null,
        Some(k) => match rec_lookup(payload, k) {
            Some(v) => v,
            None => ScalarV::Null,
        },
    }
}

/// Whether both keys of an event can be resolved: the identity value must
/// carry a key, and the foreign-key value must carry one unless it is null.
pub open spec fn spec_keys_ok(ev: WalEvent, rk: Option<Seq<char>>) -> bool {
    &&& spec_key_of(ev.pkey.val@) is Some
    &&& match spec_fk_scalar(rk, spec_payload(ev.data)) {
        ScalarV::Null => true,
        v => spec_key_of(v) is Some,
    }
}

/// The resolved key pair of an event whose keys resolve.
pub open spec fn spec_keys_of(ev: WalEvent, rk: Option<Seq<char>>) -> Keys {
    Keys {
        primary: spec_key_of(ev.pkey.val@).unwrap(),
        foreign: match spec_fk_scalar(rk, spec_payload(ev.data)) {
            ScalarV::Null => None,
            v => Some(spec_key_of(v).unwrap()),
        },
    }
}

/// A malformed change event: its identity or foreign-key value carries no
/// key, so no delta can be derived from it.
#[derive(Debug, Clone, Copy, PartialEq, Eq, Structural)]
pub enum NormalizeError {
    MalformedEvent,
}

/// The element the join engine consumes: a row key, the row's foreign key
/// if its table is the foreign side, and the row's record.
#[derive(Debug)]
pub struct DataflowData(pub u64, pub (Option<u64>, DBRecord));

/// Mathematical view of a dataflow element.
#[verifier::ext_equal]
pub struct DataV {
    pub key: u64,
    pub foreign: Option<u64>,
    pub record: RecView,
}

impl View for DataflowData {
    type V = DataV;

    open spec fn view(&self) -> DataV {
        DataV { key: self.0, foreign: self.1.0, record: self.1.1@ }
    }
}

impl Clone for DataflowData {
    /// Clones the element, keeping its view.
    fn clone(&self) -> (r: Self)
        ensures
            r@ == self@,
    {
        let r = DataflowData(self.0, (self.1.0, self.1.1.clone()));
        proof {
            assert(r@ == self@);
        }
        r
    }
}

/// One signed delta at a logical time.
#[derive(Debug)]
pub struct DataflowInput {
    pub element: DataflowData,
    pub time: u64,
    pub change: i64,
}

/// Mathematical view of a delta.
#[verifier::ext_equal]
pub struct InputV {
    pub element: DataV,
    pub time: u64,
    pub change: int,
}

impl View for DataflowInput {
    type V = InputV;

    open spec fn view(&self) -> InputV {
        InputV { element: self.element@, time: self.time, change: self.change as int }
    }
}

/// The deltas a single event normalizes to, given its resolved keys.
pub open spec fn spec_deltas(ev: WalEvent, rk: Option<Seq<char>>) -> Seq<InputV> {
    let keys = spec_keys_of(ev, rk);
    match ev.data {
        WalData::Insert(p) => seq![
            InputV {
                element: DataV { key: keys.primary, foreign: keys.foreign, record: p.0@ },
                time: ev.xid,
                change: 1,
            },
        ],
        WalData::Update(p) => seq![
            InputV {
                element: DataV {
                    key: keys.primary,
                    foreign: keys.foreign,
                    record: Seq::<(Seq<char>, ScalarV)>::empty(),
                },
                time: ev.xid,
                change: -1,
            },
            InputV {
                element: DataV { key: keys.primary, foreign: keys.foreign, record: p.0@ },
                time: ev.xid,
                change: 1,
            },
        ],
        WalData::Delete => seq![
            InputV {
                element: DataV {
                    key: keys.primary,
                    foreign: None,
                    record: Seq::<(Seq<char>, ScalarV)>::empty(),
                },
                time: ev.xid,
                change: -1,
            },
        ],
    }
}

/// Resolves the primary and foreign keys of an event.
///
/// Fails exactly when the identity value carries no key, or the requested
/// foreign-key column holds a value of a shape that carries none.
pub fn get_required_key(required_key: &Option<String>, change_event: &WalEvent) -> (r: Result<
    Keys,
    NormalizeError,
>)
    ensures
        ({
            let rk = match required_key {
                Some(k) => Some(k@),
                None => None,
            };
            match r {
                Ok(keys) => spec_keys_ok(*change_event, rk) && keys == spec_keys_of(
                    *change_event,
                    rk,
                ),
                Err(e) => !spec_keys_ok(*change_event, rk) && e == NormalizeError::MalformedEvent,
            }
        }),
{
    let primary = match key_to_u64(&change_event.pkey.val) {
        Some(k) => k,
        None => {
            return Err(NormalizeError::MalformedEvent);
        },
    };
    let foreign: Option<u64> = match required_key {
        Some(col) => {
            let fk_val = match &change_event.data {
                WalData::Insert(p) => p.0.get(col.as_str()),
                WalData::Update(p) => p.0.get(col.as_str()),
                WalData::Delete => ScalarValue::Null,
            };
            match &fk_val {
                ScalarValue::Null => None,
                _ => match key_to_u64(&fk_val) {
                    Some(k) => Some(k),
                    None => {
                        return Err(NormalizeError::MalformedEvent);
                    },
                },
            }
        },
        None => None,
    };
    Ok(Keys { primary, foreign })
}

impl DataflowInput {
    /// Normalizes one event into its deltas: one assertion for an insert,
    /// one bare-key retraction for a delete, and a retraction followed by
    /// an assertion at the same logical time for an update.
    pub fn normalize(change_event: &WalEvent, required_key: &Option<String>) -> (r: Result<
        Vec<DataflowInput>,
        NormalizeError,
    >)
        ensures
            ({
                let rk = match required_key {
                    Some(k) => Some(k@),
                    None => None,
                };
                match r {
                    Ok(ds) => spec_keys_ok(*change_event, rk) && ds@.map_values(
                        |d: DataflowInput| d@,
                    ) == spec_deltas(*change_event, rk),
                    Err(e) => !spec_keys_ok(*change_event, rk) && e
                        == NormalizeError::MalformedEvent,
                }
            }),
    {
        let keys = match get_required_key(required_key, change_event) {
            Ok(keys) => keys,
            Err(e) => {
                return Err(e);
            },
        };
        let ghost rk: Option<Seq<char>> = match required_key {
            Some(k) => Some(k@),
            None => None,
        };
        let mut out: Vec<DataflowInput> = Vec::new();
        match &change_event.data {
            WalData::Insert(p) => {
                out.push(
                    DataflowInput {
                        element: DataflowData(keys.primary, (keys.foreign, p.0.clone())),
                        time: change_event.xid,
                        change: 1,
                    },
                );
            },
            WalData::Update(p) => {
                out.push(
                    DataflowInput {
                        element: DataflowData(keys.primary, (keys.foreign, DBRecord::new())),
                        time: change_event.xid,
                        change: -1,
                    },
                );
                out.push(
                    DataflowInput {
                        element: DataflowData(keys.primary, (keys.foreign, p.0.clone())),
                        time: change_event.xid,
                        change: 1,
                    },
                );
            },
            WalData::Delete => {
                out.push(
                    DataflowInput {
                        element: DataflowData(keys.primary, (None, DBRecord::new())),
                        time: change_event.xid,
                        change: -1,
                    },
                );
            },
        }
        proof {
            assert(out@.map_values(|d: DataflowInput| d@) =~= spec_deltas(*change_event, rk));
        }
        Ok(out)
    }

    /// Normalizes a batch of events, dropping each malformed one and
    /// reporting how many were dropped.
    pub fn from_wal_event(event: Vec<WalEvent>, required_key: Option<String>) -> (r: (
        Vec<DataflowInput>,
        usize,
    ))
        ensures
            ({
                let rk = match required_key {
                    Some(k) => Some(k@),
                    None => None,
                };
                r.0@.map_values(|d: DataflowInput| d@) == spec_normalize_all(event@, rk)
                    && r.1 as nat == spec_malformed_count(event@, rk)
            }),
    {
        let ghost rk: Option<Seq<char>> = match &required_key {
            Some(k) => Some(k@),
            None => None,
        };
        let mut out: Vec<DataflowInput> = Vec::new();
        let ghost mut gout: Seq<InputV> = Seq::empty();
        let mut malformed: usize = 0;
        let mut i: usize = 0;
        while i < event.len()
            invariant
                0 <= i <= event@.len(),
                rk == (match required_key {
                    Some(k) => Some(k@),
                    None => None,
                }),
                out@.len() == gout.len(),
                forall|j: int| 0 <= j < out@.len() ==> (#[trigger] out@[j])@ == gout[j],
                gout == spec_normalize_all(event@.take(i as int), rk),
                malformed as nat == spec_malformed_count(event@.take(i as int), rk),
                malformed <= i,
            decreases event@.len() - i,
        {
            proof {
                assert(event@.take(i + 1 as int).drop_last() =~= event@.take(i as int));
                assert(event@.take(i + 1 as int).last() == event@[i as int]);
            }
            match Self::normalize(&event[i], &required_key) {
                Ok(mut ds) => {
                    proof {
                        gout = gout + ds@.map_values(|d: DataflowInput| d@);
                    }
                    out.append(&mut ds);
                },
                Err(e) => {
                    malformed = malformed + 1;
                    proof {
                        assert(gout + Seq::<InputV>::empty() =~= gout);
                    }
                },
            }
            i = i + 1;
        }
        proof {
            assert(event@.take(event@.len() as int) =~= event@);
        }
        (out, malformed)
    }
}

/// The concatenation of the deltas of every well-formed event, in order.
pub open spec fn spec_normalize_all(events: Seq<WalEvent>, rk: Option<Seq<char>>) -> Seq<InputV>
    decreases events.len(),
{
    if events.len() == 0 {
        Seq::<InputV>::empty()
    } else if spec_keys_ok(events.last(), rk) {
        spec_normalize_all(events.drop_last(), rk) + spec_deltas(events.last(), rk)
    } else {
        spec_normalize_all(events.drop_last(), rk)
    }
}

/// How many events of a batch are malformed.
pub open spec fn spec_malformed_count(events: Seq<WalEvent>, rk: Option<Seq<char>>) -> nat
    decreases events.len(),
{
    if events.len() == 0 {
        0
    } else if spec_keys_ok(events.last(), rk) {
        spec_malformed_count(events.drop_last(), rk)
    } else {
        spec_malformed_count(events.drop_last(), rk) + 1
    }
}

} // verus!
