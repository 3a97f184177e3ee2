use dbmigrate::metadata::{ColumnMetadata, IndexMetadata, TableMetadata};
use dbmigrate::pool::{Checkout, PoolSlots};
use dbmigrate::sql::{add_column_sql, alter_column_sql, column_sql, create_index_sql, create_table_sql};

fn col(name: &str, ty: &str, len: Option<i32>, nullable: bool) -> ColumnMetadata {
    ColumnMetadata { name: name.to_string(), data_type: ty.to_string(), length: len, nullable, default_value: None }
}

#[test]
fn column_definitions() {
    assert_eq!(column_sql(&col("amount", "decimal", Some(2), false)), "amount decimal(2) NOT NULL");
    assert_eq!(column_sql(&col("note", "varchar", Some(-1), true)), "note varchar");
    assert_eq!(column_sql(&col("id", "integer", None, true)), "id integer");
}

#[test]
fn ddl_statements() {
    let t = TableMetadata {
        name: "order items".to_string(),
        columns: vec![col("id", "integer", None, false), col("sku", "varchar", Some(40), true)],
        primary_keys: vec!["id".to_string()],
        indexes: vec![],
    };
    assert_eq!(create_table_sql(&t), "CREATE TABLE order_items (id integer NOT NULL, sku varchar(40))");
    assert_eq!(add_column_sql("orders", &col("amount", "decimal", Some(2), false)), "ALTER TABLE orders ADD amount decimal(2) NOT NULL");
    assert_eq!(alter_column_sql("orders", &col("note", "text", None, true)), "ALTER TABLE orders ALTER COLUMN note text");
    let ix = IndexMetadata { name: "ix_orders".to_string(), columns: vec!["a".to_string(), "b".to_string()], is_unique: true };
    assert_eq!(create_index_sql("orders", &ix), "CREATE UNIQUE INDEX ix_orders ON orders (a, b)");
    let ix2 = IndexMetadata { name: "ix2".to_string(), columns: vec!["a".to_string()], is_unique: false };
    assert_eq!(create_index_sql("orders", &ix2), "CREATE INDEX ix2 ON orders (a)");
}

#[test]
fn pool_hands_out_exclusive_slots() {
    let mut p = PoolSlots::new(2);
    assert_eq!(p.acquire(), Checkout::Open(0));
    assert_eq!(p.acquire(), Checkout::Open(1));
    assert_eq!(p.acquire(), Checkout::Exhausted);
    p.release(1);
    assert_eq!(p.acquire(), Checkout::Reuse(1));
    p.release(0);
    p.release(1);
    assert_eq!(p.acquire(), Checkout::Reuse(0));
    assert_eq!(p.open_count(), 2);
}

#[test]
fn pool_abandons_failed_open() {
    let mut p = PoolSlots::new(1);
    assert_eq!(p.acquire(), Checkout::Open(0));
    p.abandon_last();
    assert_eq!(p.open_count(), 0);
    assert_eq!(p.acquire(), Checkout::Open(0));
    let mut empty = PoolSlots::new(0);
    assert_eq!(empty.acquire(), Checkout::Exhausted);
}
