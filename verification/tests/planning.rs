use streaming_sql::keys::{Key, KeyType};
use streaming_sql::parser::{JoinCondition, Query, RowProperty};
use streaming_sql::planer::{required_key_for_table, QueryPlaner};

fn users_orders_query() -> Query {
    Query {
        tables: vec!["users".to_string(), "orders".to_string()],
        rows: vec![],
        condition: None,
        joins: vec![JoinCondition {
            left: RowProperty { table: "users".to_string(), row: "id".to_string() },
            operator: "=".to_string(),
            right: RowProperty { table: "orders".to_string(), row: "buyerId".to_string() },
        }],
    }
}

#[test]
fn resolves_right_primary_key_column() {
    let planer = QueryPlaner::new(vec![
        (
            "orders".to_string(),
            vec![
                Key {
                    column_name: "buyerId".to_string(),
                    key_type: KeyType::ForeignKey {
                        foreign_table: "users".to_string(),
                        foreign_column: "id".to_string(),
                    },
                },
                Key { column_name: "id".to_string(), key_type: KeyType::PrimaryKey },
            ],
        ),
    ]);
    let q = users_orders_query();
    assert_eq!(planer.resolve_right_key(&q), Some("orders.id".to_string()));
}

#[test]
fn missing_table_metadata_resolves_nothing() {
    let planer = QueryPlaner::new(vec![]);
    let q = users_orders_query();
    assert_eq!(planer.resolve_right_key(&q), None);
}

#[test]
fn table_without_primary_key_resolves_nothing() {
    let planer = QueryPlaner::new(vec![(
        "orders".to_string(),
        vec![Key {
            column_name: "buyerId".to_string(),
            key_type: KeyType::ForeignKey {
                foreign_table: "users".to_string(),
                foreign_column: "id".to_string(),
            },
        }],
    )]);
    let q = users_orders_query();
    assert_eq!(planer.resolve_right_key(&q), None);
}

#[test]
fn foreign_side_extracts_join_column() {
    let q = users_orders_query();
    assert_eq!(required_key_for_table(&q, "orders"), Some("buyerId".to_string()));
    assert_eq!(required_key_for_table(&q, "users"), None);
}

#[test]
fn query_without_joins_needs_no_column() {
    let q = Query {
        tables: vec!["users".to_string()],
        rows: vec![],
        condition: None,
        joins: vec![],
    };
    assert_eq!(required_key_for_table(&q, "users"), None);
}
