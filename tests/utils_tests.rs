use dbmigrate::batch::{batch_count_of};
use dbmigrate::config::{
    BatchConfig, Config, ConfigError, ConnectionPoolConfig, DatabaseConfig, DsnConfig, ParallelConfig,
};
use dbmigrate::utils::{
    format_duration, format_sql_value, generate_batch_insert_sql, push_decimal, sanitize_table_name,
    validate_column_name, validate_table_name, NameError,
};

fn db() -> DatabaseConfig {
    DatabaseConfig {
        driver: "ODBC Driver 18".to_string(),
        server: "localhost".to_string(),
        database: "shop".to_string(),
        schema: "dbo".to_string(),
        username: "sa".to_string(),
        password: "pw".to_string(),
    }
}

fn config(min: u32, max: u32, batch: usize, freq: usize, parallel: bool, threads: usize) -> Config {
    Config {
        dsn: DsnConfig { origin: db(), reference: db(), target: db() },
        connection_pool: ConnectionPoolConfig { min_size: min, max_size: max, timeout_seconds: 30 },
        batch: BatchConfig { batch_size: batch, commit_frequency: freq },
        parallel: ParallelConfig { enabled: parallel, thread_count: threads },
        log_level: "info".to_string(),
    }
}

#[test]
fn sanitize_replaces_unsafe_characters() {
    assert_eq!(sanitize_table_name("my-table.x"), "my_table_x");
    assert_eq!(sanitize_table_name("orders_2024"), "orders_2024");
    assert_eq!(sanitize_table_name("a b;DROP"), "a_b_DROP");
    assert_eq!(sanitize_table_name(""), "");
}

#[test]
fn sql_value_doubles_quotes() {
    assert_eq!(format_sql_value("O'Reilly"), "'O''Reilly'");
    assert_eq!(format_sql_value(""), "''");
    assert_eq!(format_sql_value("''"), "''''''");
    assert_eq!(format_sql_value("plain"), "'plain'");
}

#[test]
fn batch_insert_sql_chunks_rows() {
    let columns = vec!["id".to_string(), "name".to_string()];
    let rows = vec![
        vec!["1".to_string(), "a".to_string()],
        vec!["2".to_string(), "b'c".to_string()],
        vec!["3".to_string(), "d".to_string()],
    ];
    let q = generate_batch_insert_sql("order-items", &columns, &rows, 2);
    assert_eq!(q.len(), 2);
    assert_eq!(q[0], "INSERT INTO order_items (id, name) VALUES ('1', 'a'), ('2', 'b''c')");
    assert_eq!(q[1], "INSERT INTO order_items (id, name) VALUES ('3', 'd')");
}

#[test]
fn batch_insert_sql_empty_and_exact() {
    let columns = vec!["id".to_string()];
    let none: Vec<Vec<String>> = Vec::new();
    assert!(generate_batch_insert_sql("t", &columns, &none, 3).is_empty());
    let rows: Vec<Vec<String>> = (0..4).map(|i| vec![i.to_string()]).collect();
    let q = generate_batch_insert_sql("t", &columns, &rows, 2);
    assert_eq!(q, vec!["INSERT INTO t (id) VALUES ('0'), ('1')", "INSERT INTO t (id) VALUES ('2'), ('3')"]);
}

#[test]
fn duration_formats_by_largest_unit() {
    assert_eq!(format_duration(3723), "1h 2m 3s");
    assert_eq!(format_duration(3600), "1h 0m 0s");
    assert_eq!(format_duration(125), "2m 5s");
    assert_eq!(format_duration(5), "5s");
    assert_eq!(format_duration(0), "0s");
    assert_eq!(format_duration(u64::MAX), "5124095576030431h 0m 15s");
}

#[test]
fn decimal_digits() {
    let mut s = String::from("n=");
    push_decimal(&mut s, 1200);
    assert_eq!(s, "n=1200");
}

#[test]
fn name_validation() {
    assert_eq!(validate_table_name("orders"), Ok(()));
    assert_eq!(validate_table_name("Order_2"), Ok(()));
    assert_eq!(validate_table_name(""), Err(NameError::Empty));
    assert_eq!(validate_table_name("1orders"), Err(NameError::MustStartWithLetter));
    assert_eq!(validate_table_name("_orders"), Err(NameError::MustStartWithLetter));
    assert_eq!(validate_table_name("ord-ers"), Err(NameError::InvalidCharacter));
    assert_eq!(validate_column_name("amount"), Ok(()));
    assert_eq!(validate_column_name("amount total"), Err(NameError::InvalidCharacter));
    assert_eq!(validate_column_name(""), Err(NameError::Empty));
}

#[test]
fn config_validation_rules() {
    assert_eq!(config(1, 4, 500, 2, true, 4).validate(), Ok(()));
    assert_eq!(config(1, 4, 500, 2, false, 0).validate(), Ok(()));
    assert_eq!(config(0, 0, 500, 2, false, 1).validate(), Err(ConfigError::EmptyPool));
    assert_eq!(config(5, 4, 500, 2, false, 1).validate(), Err(ConfigError::PoolBoundsInverted));
    assert_eq!(config(1, 4, 0, 2, false, 1).validate(), Err(ConfigError::ZeroBatchSize));
    assert_eq!(config(1, 4, 500, 0, false, 1).validate(), Err(ConfigError::ZeroCommitFrequency));
    assert_eq!(config(1, 4, 500, 2, true, 0).validate(), Err(ConfigError::ZeroThreads));
}

#[test]
fn batch_count_is_ceiling() {
    assert_eq!(batch_count_of(1200, 500), 3);
    assert_eq!(batch_count_of(1000, 500), 2);
    assert_eq!(batch_count_of(0, 500), 0);
    assert_eq!(batch_count_of(1, 500), 1);
}
