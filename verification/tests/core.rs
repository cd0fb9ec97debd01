use streaming_sql::keys::{fnv1a_hash, key_to_u64, Keys};
use streaming_sql::numeral::{i64_to_dec, parse_i64, u64_to_dec};
use streaming_sql::parser::{JoinCondition, Query, RowProperty, WhereCondition};
use streaming_sql::record::{DBRecord, RecordType};
use streaming_sql::scalar::ScalarValue;
use streaming_sql::sink::Sink;
use streaming_sql::subscription::Subscription;

fn rec(cols: &[(&str, ScalarValue)]) -> DBRecord {
    let mut r = DBRecord::new();
    for (k, v) in cols {
        r.insert(k.to_string(), clone_scalar(v));
    }
    r
}

fn clone_scalar(v: &ScalarValue) -> ScalarValue {
    match v {
        ScalarValue::Null => ScalarValue::Null,
        ScalarValue::Number(n) => ScalarValue::Number(*n),
        ScalarValue::Text(s) => ScalarValue::Text(s.clone()),
        ScalarValue::Boolean(b) => ScalarValue::Boolean(*b),
    }
}

fn num(n: i64) -> ScalarValue {
    ScalarValue::Number(n)
}

fn text(s: &str) -> ScalarValue {
    ScalarValue::Text(s.to_string())
}

#[test]
fn renders_zero() {
    assert_eq!(u64_to_dec(0), "0");
}

#[test]
fn renders_multi_digit() {
    assert_eq!(u64_to_dec(12345), "12345");
    assert_eq!(u64_to_dec(u64::MAX), "18446744073709551615");
}

#[test]
fn renders_negative() {
    assert_eq!(i64_to_dec(-42), "-42");
    assert_eq!(i64_to_dec(600), "600");
    assert_eq!(i64_to_dec(i64::MIN), "-9223372036854775808");
}

#[test]
fn parses_plain_numeral() {
    assert_eq!(parse_i64("600"), Some(600));
    assert_eq!(parse_i64("-17"), Some(-17));
    assert_eq!(parse_i64("0"), Some(0));
}

#[test]
fn parses_extremes() {
    assert_eq!(parse_i64("9223372036854775807"), Some(i64::MAX));
    assert_eq!(parse_i64("-9223372036854775808"), Some(i64::MIN));
    assert_eq!(parse_i64("9223372036854775808"), None);
    assert_eq!(parse_i64("-9223372036854775809"), None);
}

#[test]
fn rejects_malformed_numerals() {
    assert_eq!(parse_i64(""), None);
    assert_eq!(parse_i64("-"), None);
    assert_eq!(parse_i64("12a"), None);
    assert_eq!(parse_i64("1.5"), None);
}

#[test]
fn hashes_deterministically() {
    assert_eq!(fnv1a_hash(""), 0xcbf29ce484222325);
    assert_eq!(fnv1a_hash("a"), 0xaf63dc4c8601ec8c);
    assert_eq!(fnv1a_hash("key"), fnv1a_hash("key"));
    assert_ne!(fnv1a_hash("key"), fnv1a_hash("kez"));
}

#[test]
fn numeric_keys_pass_through() {
    assert_eq!(key_to_u64(&num(7)), Some(7));
    assert_eq!(key_to_u64(&num(-1)), None);
    assert_eq!(key_to_u64(&text("a")), Some(0xaf63dc4c8601ec8c));
    assert_eq!(key_to_u64(&ScalarValue::Boolean(true)), None);
    assert_eq!(key_to_u64(&ScalarValue::Null), None);
}

#[test]
fn swaps_keys() {
    let k = Keys { primary: 3, foreign: Some(9) };
    let s = k.swap();
    assert_eq!(s.primary, 9);
    assert_eq!(s.foreign, Some(3));
}

#[test]
fn record_get_returns_bound_value() {
    let r = rec(&[("id", num(1)), ("name", text("u"))]);
    assert!(matches!(r.get("id"), ScalarValue::Number(1)));
    assert!(matches!(r.get("missing"), ScalarValue::Null));
    assert!(r.contains_key("name"));
    assert!(!r.contains_key("nom"));
}

#[test]
fn record_finds_key_for_value() {
    let r = rec(&[("id", num(1)), ("other", num(2))]);
    assert_eq!(r.get_key_for_value(2), Some("other".to_string()));
    assert_eq!(r.get_key_for_value(5), None);
}

#[test]
fn merge_prefers_other_side() {
    let mut a = rec(&[("x", num(1)), ("y", num(2))]);
    let b = rec(&[("y", num(9)), ("z", num(3))]);
    let m = a.merge(b);
    assert!(matches!(m.get("x"), ScalarValue::Number(1)));
    assert!(matches!(m.get("y"), ScalarValue::Number(9)));
    assert!(matches!(m.get("z"), ScalarValue::Number(3)));
}

#[test]
fn prefixes_column_names() {
    let r = rec(&[("id", num(1))]);
    let p = r.prefix_keys("users".to_string());
    assert!(matches!(p.get("users.id"), ScalarValue::Number(1)));
    assert!(matches!(p.get("id"), ScalarValue::Null));
}

#[test]
fn picks_requested_columns() {
    let r = rec(&[("a", num(1)), ("b", num(2)), ("c", num(3))]);
    let p = r.pick(vec!["c".to_string(), "a".to_string(), "nope".to_string()]);
    assert!(matches!(p.get("c"), ScalarValue::Number(3)));
    assert!(matches!(p.get("a"), ScalarValue::Number(1)));
    assert!(!p.contains_key("nope"));
    assert!(!p.contains_key("b"));
}

#[test]
fn renders_insert_statement() {
    let r = rec(&[
        ("id", num(1)),
        ("name", text("u")),
        ("ok", ScalarValue::Boolean(true)),
        ("gap", ScalarValue::Null),
    ]);
    let sql = r.to_sql_values(RecordType::Insert, "view".to_string(), None);
    assert_eq!(sql, "INSERT INTO view VALUES ( 1, 'u', true);");
}

#[test]
fn renders_empty_insert_as_nothing() {
    let r = DBRecord::new();
    let sql = r.to_sql_values(RecordType::Insert, "view".to_string(), None);
    assert_eq!(sql, "");
}

#[test]
fn renders_delete_statement() {
    let r = DBRecord::new();
    let keys = vec![("users.id".to_string(), 1u64), ("orders.buyerId".to_string(), 10u64)];
    let sql = r.to_sql_values(RecordType::Delete, "view".to_string(), Some(keys));
    assert_eq!(sql, "DELETE FROM view WHERE \"users.id\" = 1 AND  \"orders.buyerId\" = 10;");
}

#[test]
fn derives_schema_from_value_shapes() {
    let r = rec(&[
        ("id", num(1)),
        ("name", text("u")),
        ("ok", ScalarValue::Boolean(false)),
        ("gap", ScalarValue::Null),
    ]);
    assert_eq!(r.create_sql_schema(), "(\"id\" INT, \"name\" TEXT, \"ok\" BOOLEAN );");
    assert_eq!(r.get_sql_columns(), vec!["\"id\"", "\"name\"", "\"ok\"", "\"gap\""]);
}

#[test]
fn record_type_from_signed_unit() {
    assert!(matches!(RecordType::from_value(1), RecordType::Insert));
    assert!(matches!(RecordType::from_value(-1), RecordType::Delete));
}

#[test]
fn qualifies_row_property() {
    let p = RowProperty { table: "users".to_string(), row: "id".to_string() };
    assert_eq!(p.to_string(), "users.id");
    let bare = RowProperty { table: "".to_string(), row: "id".to_string() };
    assert_eq!(bare.to_string(), "id");
}

#[test]
fn names_view_table_from_query() {
    let q = Query {
        tables: vec!["users".to_string(), "orders".to_string()],
        rows: vec![],
        condition: None,
        joins: vec![],
    };
    assert_eq!(q.to_table_string(), "users_orders");
}

#[test]
fn sink_flush_on_empty_is_noop() {
    let sink = Sink::new("view".to_string());
    assert_eq!(sink.flush(), None::<String>);
    assert_eq!(sink.pending_len(), 0);
}

#[test]
fn sink_preserves_pending_until_confirmed() {
    let mut sink = Sink::new("view".to_string());
    let mut stmts = vec!["INSERT INTO view VALUES ( 1);".to_string()];
    sink.insert(&mut stmts);
    assert_eq!(sink.pending_len(), 1);
    // A failed flush leaves the batch intact for retry.
    assert_eq!(sink.flush(), Some("INSERT INTO view VALUES ( 1);".to_string()));
    assert_eq!(sink.pending_len(), 1);
    assert_eq!(sink.flush(), Some("INSERT INTO view VALUES ( 1);".to_string()));
    sink.confirm_flush();
    assert_eq!(sink.pending_len(), 0);
    assert_eq!(sink.flush(), None::<String>);
}

#[test]
fn sink_joins_batch_with_spaces() {
    let mut sink = Sink::new("view".to_string());
    let mut stmts = vec!["A;".to_string(), "B;".to_string()];
    sink.insert(&mut stmts);
    assert_eq!(sink.flush(), Some("A; B;".to_string()));
}

#[test]
fn sink_builds_schema_statement() {
    let mut sink = Sink::new("view".to_string());
    let ddl = sink.set_schema("(\"id\" INT );".to_string());
    assert_eq!(ddl, "CREATE TABLE IF NOT EXISTS view (\"id\" INT );");
}

#[test]
fn subscription_keeps_fields() {
    let s = Subscription::new(
        1,
        "name".to_string(),
        "topic".to_string(),
        "active".to_string(),
        100,
        200,
    );
    assert_eq!(s.id, 1);
    assert_eq!(s.name, "name");
    assert_eq!(s.created_at, 100);
    assert_eq!(s.updated_at, 200);
}

#[test]
fn join_condition_holds_both_sides() {
    let j = JoinCondition {
        left: RowProperty { table: "users".to_string(), row: "id".to_string() },
        operator: "=".to_string(),
        right: RowProperty { table: "orders".to_string(), row: "buyerId".to_string() },
    };
    assert_eq!(j.left.to_string(), "users.id");
    assert_eq!(j.right.to_string(), "orders.buyerId");
    assert_eq!(j.operator, "=");
}

#[test]
fn where_condition_clones() {
    let w = WhereCondition {
        left: RowProperty { table: "orders".to_string(), row: "total".to_string() },
        op: ">".to_string(),
        right: "600".to_string(),
    };
    let c = w.clone();
    assert_eq!(c.left.to_string(), "orders.total");
    assert_eq!(c.op, ">");
    assert_eq!(c.right, "600");
}
