use streaming_sql::buffer::{Buffer, BufferedItem};
use streaming_sql::event::{
    DataflowData, DataflowInput, Insert, NormalizeError, PKey, Update, WalData, WalEvent,
};
use streaming_sql::filter::eval_filter;
use streaming_sql::join::JoinEngine;
use streaming_sql::parser::{RowProperty, WhereCondition};
use streaming_sql::record::DBRecord;
use streaming_sql::scalar::ScalarValue;

fn row(cols: &[(&str, ScalarValue)]) -> DBRecord {
    let mut r = DBRecord::new();
    for (k, v) in cols {
        let copy = match v {
            ScalarValue::Null => ScalarValue::Null,
            ScalarValue::Number(n) => ScalarValue::Number(*n),
            ScalarValue::Text(s) => ScalarValue::Text(s.clone()),
            ScalarValue::Boolean(b) => ScalarValue::Boolean(*b),
        };
        r.insert(k.to_string(), copy);
    }
    r
}

fn n(v: i64) -> ScalarValue {
    ScalarValue::Number(v)
}

fn t(v: &str) -> ScalarValue {
    ScalarValue::Text(v.to_string())
}

fn item(table: &str, pk: u64, fk: Option<u64>, rec: DBRecord, time: u64, change: i64) -> BufferedItem {
    BufferedItem { table: table.to_string(), data: DataflowData(pk, (fk, rec)), time, change }
}

fn wal(xid: u64, pkey_val: ScalarValue, data: WalData) -> WalEvent {
    WalEvent {
        timestamp: "now".to_string(),
        xid,
        pkey: PKey { col: "id".to_string(), val: pkey_val },
        data,
    }
}

#[test]
fn normalizes_insert_to_one_assertion() {
    let ev = wal(5, n(1), WalData::Insert(Insert(row(&[("id", n(1)), ("v", t("a"))]))));
    let (deltas, dropped) = DataflowInput::from_wal_event(vec![ev], None);
    assert_eq!(dropped, 0);
    assert_eq!(deltas.len(), 1);
    assert_eq!(deltas[0].time, 5);
    assert_eq!(deltas[0].change, 1);
    assert_eq!(deltas[0].element.0, 1);
    assert_eq!(deltas[0].element.1 .0, None);
    assert!(matches!(deltas[0].element.1 .1.get("v"), ScalarValue::Text(_)));
}

#[test]
fn normalizes_update_to_retract_then_assert() {
    let ev = wal(7, n(1), WalData::Update(Update(row(&[("id", n(1)), ("v", t("b"))]))));
    let (deltas, dropped) = DataflowInput::from_wal_event(vec![ev], None);
    assert_eq!(dropped, 0);
    assert_eq!(deltas.len(), 2);
    // Retraction first, assertion second, both at the same logical time.
    assert_eq!(deltas[0].change, -1);
    assert_eq!(deltas[1].change, 1);
    assert_eq!(deltas[0].time, 7);
    assert_eq!(deltas[1].time, 7);
    assert!(matches!(deltas[0].element.1 .1.get("v"), ScalarValue::Null));
    assert!(matches!(deltas[1].element.1 .1.get("v"), ScalarValue::Text(_)));
}

#[test]
fn normalizes_delete_to_bare_key_retraction() {
    let ev = wal(9, n(4), WalData::Delete);
    let (deltas, dropped) = DataflowInput::from_wal_event(vec![ev], None);
    assert_eq!(dropped, 0);
    assert_eq!(deltas.len(), 1);
    assert_eq!(deltas[0].change, -1);
    assert_eq!(deltas[0].element.0, 4);
    assert!(!deltas[0].element.1 .1.contains_key("id"));
}

#[test]
fn extracts_foreign_key_column() {
    let ev = wal(
        3,
        n(10),
        WalData::Insert(Insert(row(&[("id", n(10)), ("buyerId", n(1)), ("v", t("x"))]))),
    );
    let (deltas, dropped) =
        DataflowInput::from_wal_event(vec![ev], Some("buyerId".to_string()));
    assert_eq!(dropped, 0);
    assert_eq!(deltas[0].element.1 .0, Some(1));
}

#[test]
fn missing_foreign_column_yields_no_key() {
    let ev = wal(3, n(10), WalData::Insert(Insert(row(&[("id", n(10))]))));
    let (deltas, dropped) =
        DataflowInput::from_wal_event(vec![ev], Some("buyerId".to_string()));
    assert_eq!(dropped, 0);
    assert_eq!(deltas[0].element.1 .0, None);
}

#[test]
fn drops_malformed_event_and_counts_it() {
    let bad = wal(2, ScalarValue::Null, WalData::Delete);
    let good = wal(3, n(1), WalData::Delete);
    let (deltas, dropped) = DataflowInput::from_wal_event(vec![bad, good], None);
    assert_eq!(dropped, 1);
    assert_eq!(deltas.len(), 1);
    assert_eq!(deltas[0].element.0, 1);
}

#[test]
fn malformed_single_event_is_reported() {
    let ev = wal(2, ScalarValue::Boolean(true), WalData::Delete);
    let r = DataflowInput::normalize(&ev, &None);
    assert!(matches!(r, Err(NormalizeError::MalformedEvent)));
}

#[test]
fn buffer_releases_in_time_order() {
    let mut buf = Buffer::new(3, 100);
    buf.insert("users".to_string(), DataflowData(1, (None, DBRecord::new())), 5, 1);
    buf.insert("orders".to_string(), DataflowData(2, (None, DBRecord::new())), 3, 1);
    buf.insert("users".to_string(), DataflowData(3, (None, DBRecord::new())), 4, 1);
    let batch = buf.pop(true).expect("a batch is due once the delay elapsed");
    let times: Vec<u64> = batch.iter().map(|it| it.time).collect();
    assert_eq!(times, vec![3, 4, 5]);
    assert!(buf.is_empty());
}

#[test]
fn buffer_does_not_split_equal_times() {
    let mut buf = Buffer::new(1, 100);
    buf.insert("users".to_string(), DataflowData(1, (None, DBRecord::new())), 2, 1);
    buf.insert("users".to_string(), DataflowData(2, (None, DBRecord::new())), 2, -1);
    buf.insert("users".to_string(), DataflowData(3, (None, DBRecord::new())), 3, 1);
    let batch = buf.pop(true).expect("a batch is due");
    // The size cap is one, but the two items at time two stay together.
    assert_eq!(batch.len(), 2);
    assert_eq!(batch[0].time, 2);
    assert_eq!(batch[1].time, 2);
    assert_eq!(buf.len(), 1);
}

#[test]
fn buffer_withholds_until_due() {
    let mut buf = Buffer::new(3, 100);
    buf.insert("users".to_string(), DataflowData(1, (None, DBRecord::new())), 1, 1);
    assert!(buf.pop(false).is_none());
    assert_eq!(buf.len(), 1);
    let batch = buf.pop(true).expect("the delay has elapsed");
    assert_eq!(batch.len(), 1);
}

#[test]
fn buffer_pops_when_twice_the_cap_is_queued() {
    let mut buf = Buffer::new(1, 100);
    buf.insert("users".to_string(), DataflowData(1, (None, DBRecord::new())), 1, 1);
    buf.insert("users".to_string(), DataflowData(2, (None, DBRecord::new())), 2, 1);
    let batch = buf.pop(false).expect("twice the size cap is queued");
    assert_eq!(batch.len(), 1);
}

#[test]
fn buffer_tracks_watermark() {
    let mut buf = Buffer::new(1, 100);
    assert_eq!(buf.get_watermark(), 0);
    buf.update_watermark(9);
    assert_eq!(buf.get_watermark(), 9);
}

fn two_table_engine(condition: Option<WhereCondition>) -> JoinEngine {
    JoinEngine::new("users".to_string(), "orders".to_string(), condition)
}

#[test]
fn join_emits_exactly_the_matched_pairs() {
    let mut engine = two_table_engine(None);
    let batch = vec![
        item("users", 1, None, row(&[("id", n(1)), ("v", t("a"))]), 1, 1),
        item("users", 2, None, row(&[("id", n(2)), ("v", t("b"))]), 2, 1),
        item("orders", 10, Some(1), row(&[("id", n(10)), ("value", t("x"))]), 3, 1),
        item("orders", 11, Some(2), row(&[("id", n(11)), ("value", t("y"))]), 4, 1),
    ];
    let outs = engine.step(&batch).expect("the batch starts at the clock");
    assert_eq!(outs.len(), 2);
    let mut pairs: Vec<(u64, u64, i64)> =
        outs.iter().map(|o| (o.left_key, o.right_key, o.change)).collect();
    pairs.sort();
    assert_eq!(pairs, vec![(1, 10, 1), (2, 11, 1)]);
    for o in &outs {
        if o.left_key == 1 {
            assert!(matches!(o.record.get("users.v"), ScalarValue::Text(ref s) if s.as_str() == "a"));
            assert!(matches!(o.record.get("orders.value"), ScalarValue::Text(ref s) if s.as_str() == "x"));
        } else {
            assert!(matches!(o.record.get("users.v"), ScalarValue::Text(ref s) if s.as_str() == "b"));
            assert!(matches!(o.record.get("orders.value"), ScalarValue::Text(ref s) if s.as_str() == "y"));
        }
    }
}

#[test]
fn join_applies_filter_to_output() {
    let cond = WhereCondition {
        left: RowProperty { table: "orders".to_string(), row: "value".to_string() },
        op: "=".to_string(),
        right: "x".to_string(),
    };
    let mut engine = two_table_engine(Some(cond));
    let batch = vec![
        item("users", 1, None, row(&[("id", n(1)), ("v", t("a"))]), 1, 1),
        item("users", 2, None, row(&[("id", n(2)), ("v", t("b"))]), 2, 1),
        item("orders", 10, Some(1), row(&[("id", n(10)), ("value", t("x"))]), 3, 1),
        item("orders", 11, Some(2), row(&[("id", n(11)), ("value", t("y"))]), 4, 1),
    ];
    let outs = engine.step(&batch).expect("the batch starts at the clock");
    assert_eq!(outs.len(), 1);
    assert_eq!((outs[0].left_key, outs[0].right_key, outs[0].change), (1, 10, 1));
}

#[test]
fn insert_then_delete_conserves_multiplicity() {
    let mut engine = two_table_engine(None);
    let setup = vec![
        item("users", 1, None, row(&[("id", n(1)), ("v", t("a"))]), 1, 1),
        item("orders", 10, Some(1), row(&[("id", n(10)), ("value", t("x"))]), 2, 1),
    ];
    let outs = engine.step(&setup).expect("the batch starts at the clock");
    assert_eq!(outs.len(), 1);
    assert_eq!(outs[0].change, 1);
    // The bare-key delete reconstructs the stored row and retracts the pair.
    let del = vec![item("users", 1, None, DBRecord::new(), 3, -1)];
    let outs = engine.step(&del).expect("the batch starts at the clock");
    assert_eq!(outs.len(), 1);
    assert_eq!(outs[0].change, -1);
    assert_eq!((outs[0].left_key, outs[0].right_key), (1, 10));
    // A second delete of the same key misses the state store.
    let again = vec![item("users", 1, None, DBRecord::new(), 4, -1)];
    let outs = engine.step(&again).expect("the batch starts at the clock");
    assert_eq!(outs.len(), 0);
    assert_eq!(engine.integrity_faults(), 1);
}

#[test]
fn delete_without_prior_insert_is_a_counted_fault() {
    let mut engine = two_table_engine(None);
    let del = vec![item("users", 42, None, DBRecord::new(), 1, -1)];
    let outs = engine.step(&del).expect("the batch starts at the clock");
    assert_eq!(outs.len(), 0);
    assert_eq!(engine.integrity_faults(), 1);
}

#[test]
fn update_pair_is_atomic_at_one_time() {
    let mut engine = two_table_engine(None);
    let setup = vec![
        item("users", 1, None, row(&[("id", n(1)), ("v", t("old"))]), 1, 1),
        item("orders", 10, Some(1), row(&[("id", n(10)), ("value", t("x"))]), 2, 1),
    ];
    engine.step(&setup).expect("the batch starts at the clock");
    // An update normalizes into a retraction and an assertion at one time.
    let update = vec![
        item("users", 1, None, DBRecord::new(), 5, -1),
        item("users", 1, None, row(&[("id", n(1)), ("v", t("new"))]), 5, 1),
    ];
    let outs = engine.step(&update).expect("the batch starts at the clock");
    assert_eq!(outs.len(), 2);
    assert_eq!(outs[0].change, -1);
    assert_eq!(outs[1].change, 1);
    assert_eq!(outs[0].time, 5);
    assert_eq!(outs[1].time, 5);
    assert!(matches!(outs[0].record.get("users.v"), ScalarValue::Text(ref s) if s.as_str() == "old"));
    assert!(matches!(outs[1].record.get("users.v"), ScalarValue::Text(ref s) if s.as_str() == "new"));
}

#[test]
fn right_side_delete_retracts_its_pair() {
    let mut engine = two_table_engine(None);
    let setup = vec![
        item("users", 1, None, row(&[("id", n(1)), ("v", t("a"))]), 1, 1),
        item("orders", 10, Some(1), row(&[("id", n(10)), ("value", t("x"))]), 2, 1),
    ];
    engine.step(&setup).expect("the batch starts at the clock");
    let del = vec![item("orders", 10, None, DBRecord::new(), 3, -1)];
    let outs = engine.step(&del).expect("the batch starts at the clock");
    assert_eq!(outs.len(), 1);
    assert_eq!((outs[0].left_key, outs[0].right_key, outs[0].change), (1, 10, -1));
}

#[test]
fn engine_refuses_clock_regression() {
    let mut engine = two_table_engine(None);
    let first = vec![item("users", 1, None, row(&[("id", n(1))]), 5, 1)];
    engine.step(&first).expect("the batch starts at the clock");
    assert_eq!(engine.clock(), 5);
    let stale = vec![item("users", 2, None, row(&[("id", n(2))]), 3, 1)];
    let r = engine.step(&stale);
    assert!(r.is_err());
    assert_eq!(engine.clock(), 5);
}

#[test]
fn heartbeat_advances_the_clock() {
    let mut engine = two_table_engine(None);
    assert_eq!(engine.clock(), 0);
    engine.advance_to(7).expect("time moves forward");
    assert_eq!(engine.clock(), 7);
    assert!(engine.advance_to(4).is_err());
    assert_eq!(engine.clock(), 7);
}

#[test]
fn filter_compares_each_operator() {
    let merged = row(&[("orders.total", n(700)), ("orders.name", t("x"))]);
    let cond = |op: &str, right: &str| WhereCondition {
        left: RowProperty { table: "orders".to_string(), row: "total".to_string() },
        op: op.to_string(),
        right: right.to_string(),
    };
    assert!(eval_filter(&cond("=", "700"), &merged));
    assert!(!eval_filter(&cond("=", "600"), &merged));
    assert!(eval_filter(&cond("!=", "600"), &merged));
    assert!(eval_filter(&cond(">", "600"), &merged));
    assert!(!eval_filter(&cond(">", "700"), &merged));
    assert!(eval_filter(&cond(">=", "700"), &merged));
    assert!(eval_filter(&cond("<", "800"), &merged));
    assert!(eval_filter(&cond("<=", "700"), &merged));
    assert!(!eval_filter(&cond("<", "700"), &merged));
}

#[test]
fn filter_fails_closed() {
    let merged = row(&[("orders.total", n(700))]);
    let absent = WhereCondition {
        left: RowProperty { table: "orders".to_string(), row: "missing".to_string() },
        op: "=".to_string(),
        right: "700".to_string(),
    };
    assert!(!eval_filter(&absent, &merged));
    let text_ordered = WhereCondition {
        left: RowProperty { table: "orders".to_string(), row: "total".to_string() },
        op: ">".to_string(),
        right: "abc".to_string(),
    };
    assert!(!eval_filter(&text_ordered, &merged));
    let unknown_op = WhereCondition {
        left: RowProperty { table: "orders".to_string(), row: "total".to_string() },
        op: "~".to_string(),
        right: "700".to_string(),
    };
    assert!(!eval_filter(&unknown_op, &merged));
}

#[test]
fn filter_compares_text_equality() {
    let merged = row(&[("orders.value", t("x"))]);
    let eq = WhereCondition {
        left: RowProperty { table: "orders".to_string(), row: "value".to_string() },
        op: "=".to_string(),
        right: "x".to_string(),
    };
    assert!(eval_filter(&eq, &merged));
    let ne = WhereCondition {
        left: RowProperty { table: "orders".to_string(), row: "value".to_string() },
        op: "!=".to_string(),
        right: "y".to_string(),
    };
    assert!(eval_filter(&ne, &merged));
}
