use dbmigrate::config::BatchConfig;
use dbmigrate::decision::{default_decision, Decision, DecisionStore, DecisionType, Resolution};
use dbmigrate::diff::{diff_schemas, sorted_diff, sort_issues, AttrValue, Discrepancy, DiscrepancyKind, Severity};
use dbmigrate::execution::{
    backoff_delay, commits_after, dry_run, failure_class, should_retry, Action, Execution, FailureClass, OpStatus, Outcome,
};
use dbmigrate::metadata::{ColumnMetadata, IndexMetadata, TableMetadata};
use dbmigrate::plan::{changes_for, generate_plan, run_aborted, OperationKind, SchemaChange, TableLoad};
use dbmigrate::report::MigrationReport;

fn col(name: &str, ty: &str, len: Option<i32>, nullable: bool, default: Option<&str>) -> ColumnMetadata {
    ColumnMetadata {
        name: name.to_string(),
        data_type: ty.to_string(),
        length: len,
        nullable,
        default_value: default.map(|d| d.to_string()),
    }
}

fn table(name: &str, columns: Vec<ColumnMetadata>, indexes: Vec<IndexMetadata>) -> TableMetadata {
    TableMetadata { name: name.to_string(), columns, primary_keys: vec!["id".to_string()], indexes }
}

fn index(name: &str, cols: &[&str], unique: bool) -> IndexMetadata {
    IndexMetadata { name: name.to_string(), columns: cols.iter().map(|c| c.to_string()).collect(), is_unique: unique }
}

fn decision(id: &str, d: DecisionType) -> Decision {
    Decision { issue_id: id.to_string(), decision: d, timestamp: 1_700_000_000, operator: "ops".to_string(), comment: None }
}

fn change(kind: OperationKind, t: &str, target: &str) -> SchemaChange {
    SchemaChange { kind, table: t.to_string(), target: target.to_string() }
}

fn run_all(exec: &mut Execution, plan: &Vec<dbmigrate::plan::Operation>, outcome: impl Fn(usize) -> Outcome) -> Vec<usize> {
    let mut ran = Vec::new();
    loop {
        match exec.next_action(plan) {
            Action::Run(i) => {
                ran.push(i);
                exec.complete(plan, i, outcome(i));
            }
            Action::Skip(i) => exec.skip(plan, i),
            Action::Finished | Action::Halted => break,
        }
    }
    ran
}

#[test]
fn orders_amount_end_to_end() {
    let origin = vec![table("orders", vec![col("amount", "decimal", Some(2), false, None), col("id", "integer", None, false, None)], vec![])];
    let target = vec![table("orders", vec![col("id", "integer", None, false, None)], vec![])];
    let issues = diff_schemas(&origin, &target);
    assert_eq!(issues.len(), 1);
    assert_eq!(issues[0].table, "orders");
    assert_eq!(issues[0].item, "amount");
    assert_eq!(issues[0].kind, DiscrepancyKind::MissingColumn);
    assert_eq!(issues[0].severity, Severity::Fatal);

    let mut store = DecisionStore::new();
    let id = issues[0].issue_id();
    assert_eq!(id, "orders/amount/C");
    assert!(matches!(store.resolve(&id), Resolution::Ask));
    let d = store.record(decision(&id, DecisionType::AcceptRisk));
    assert!(matches!(d, DecisionType::AcceptRisk));
    let decisions = vec![d];
    assert!(!run_aborted(&decisions));

    let changes = changes_for(&issues, &decisions);
    let loads = vec![TableLoad { table: "orders".to_string(), rows: 1200 }];
    let plan = generate_plan(&changes, &loads, &BatchConfig { batch_size: 500, commit_frequency: 2 });
    assert_eq!(plan.len(), 4);
    assert_eq!(plan[0].kind, OperationKind::AddColumn);
    assert_eq!(plan[0].table, "orders");
    assert_eq!(plan[0].target, "amount");
    let rows: Vec<usize> = plan[1..].iter().map(|o| o.row_count).collect();
    assert_eq!(rows, vec![500, 500, 200]);
    let starts: Vec<usize> = plan[1..].iter().map(|o| o.row_start).collect();
    assert_eq!(starts, vec![0, 500, 1000]);
    for o in &plan[1..] {
        assert_eq!(o.kind, OperationKind::InsertBatch);
        assert_eq!(o.depends_on, vec![0]);
    }
    assert_eq!(plan[1].commit_group, 0);
    assert_eq!(plan[2].commit_group, 0);
    assert_eq!(plan[3].commit_group, 1);
    assert!(!commits_after(&plan, 0));
    assert!(!commits_after(&plan, 1));
    assert!(commits_after(&plan, 2));
    assert!(commits_after(&plan, 3));

    let mut exec = Execution::new(plan.len());
    let ran = run_all(&mut exec, &plan, |i| Outcome::Success { rows: plan[i].row_count });
    assert_eq!(ran, vec![0, 1, 2, 3]);
    assert_eq!(exec.rows_processed(), 1200);
    assert_eq!(exec.ops_processed(), 4);
}

#[test]
fn diff_directions_mirror() {
    let a = vec![
        table("customers", vec![col("id", "integer", None, false, None)], vec![]),
        table("orders", vec![
            col("id", "integer", None, false, None),
            col("note", "text", Some(100), true, Some("''")),
        ], vec![index("ix_a", &["id"], true)]),
    ];
    let b = vec![table("orders", vec![
        col("id", "integer", None, false, None),
        col("note", "text", Some(50), false, None),
    ], vec![index("ix_b", &["id"], false)])];
    let ab = diff_schemas(&a, &b);
    let ba = diff_schemas(&b, &a);
    let kinds_ab: Vec<DiscrepancyKind> = ab.iter().map(|d| d.kind).collect();
    assert_eq!(kinds_ab, vec![
        DiscrepancyKind::MissingTable,
        DiscrepancyKind::TypeMismatch,
        DiscrepancyKind::NullabilityMismatch,
        DiscrepancyKind::DefaultValueMismatch,
        DiscrepancyKind::IndexMismatch,
        DiscrepancyKind::IndexMismatch,
    ]);
    assert!(ba.iter().all(|d| d.table != "customers"));
    assert_eq!(ab[1].severity, Severity::Fatal);
    let ty_ba = ba.iter().find(|d| d.kind == DiscrepancyKind::TypeMismatch).unwrap();
    assert_eq!(ty_ba.severity, Severity::Warning);
    match (&ab[1].expected, &ty_ba.actual) {
        (AttrValue::Type { data_type: x, length: lx }, AttrValue::Type { data_type: y, length: ly }) => {
            assert_eq!(x, y);
            assert_eq!(lx, ly);
            assert_eq!(*lx, Some(100));
        }
        _ => panic!("type values expected"),
    }
    assert_eq!(ba.len(), 5);
    let ix: Vec<(String, bool)> = ba.iter().filter(|d| d.kind == DiscrepancyKind::IndexMismatch)
        .map(|d| (d.item.clone(), matches!(d.expected, AttrValue::Absent))).collect();
    assert_eq!(ix, vec![("ix_b".to_string(), false), ("ix_a".to_string(), true)]);
}

#[test]
fn identical_snapshots_have_no_issues() {
    let a = vec![table("t", vec![col("id", "integer", None, false, None)], vec![index("pk", &["id"], true)])];
    let b = vec![table("t", vec![col("id", "integer", None, false, None)], vec![index("pk_other_name", &["id"], true)])];
    assert!(diff_schemas(&a, &b).is_empty());
    assert!(diff_schemas(&[], &[]).is_empty());
}

#[test]
fn widening_type_is_a_warning() {
    let a = vec![table("t", vec![col("c", "text", Some(10), true, None)], vec![])];
    let b = vec![table("t", vec![col("c", "text", None, true, None)], vec![])];
    let r = diff_schemas(&a, &b);
    assert_eq!(r.len(), 1);
    assert_eq!(r[0].kind, DiscrepancyKind::TypeMismatch);
    assert_eq!(r[0].severity, Severity::Warning);
    let c = vec![table("t", vec![col("c", "integer", Some(10), true, None)], vec![])];
    assert_eq!(diff_schemas(&a, &c)[0].severity, Severity::Fatal);
}

#[test]
fn decisions_are_memoized() {
    let mut store = DecisionStore::new();
    let first = store.record(decision("t/c/Y", DecisionType::ModifyConfig("CAST(c AS TEXT)".to_string())));
    assert!(matches!(&first, DecisionType::ModifyConfig(p) if p == "CAST(c AS TEXT)"));
    let second = store.record(decision("t/c/Y", DecisionType::Abort));
    assert!(matches!(&second, DecisionType::ModifyConfig(p) if p == "CAST(c AS TEXT)"));
    assert_eq!(store.len(), 1);
    match store.resolve("t/c/Y") {
        Resolution::Memoized(DecisionType::ModifyConfig(p)) => assert_eq!(p, "CAST(c AS TEXT)"),
        _ => panic!("memoized decision expected"),
    }
    assert!(matches!(store.resolve("t/d/Y"), Resolution::Ask));
    assert!(store.lookup("t/d/Y").is_none());
    store.record(decision("t/d/Y", DecisionType::SkipItem));
    assert_eq!(store.len(), 2);
    assert!(matches!(store.lookup("t/d/Y"), Some(DecisionType::SkipItem)));
}

#[test]
fn unattended_policy() {
    let mk = |s: Severity| Discrepancy {
        table: "t".to_string(), item: "c".to_string(), kind: DiscrepancyKind::TypeMismatch, severity: s,
        expected: AttrValue::Absent, actual: AttrValue::Absent,
    };
    assert!(matches!(default_decision(&mk(Severity::Fatal)), DecisionType::Abort));
    assert!(matches!(default_decision(&mk(Severity::Warning)), DecisionType::AcceptRisk));
    assert!(matches!(default_decision(&mk(Severity::Info)), DecisionType::AcceptRisk));
}

#[test]
fn skipped_and_aborted_items_leave_the_plan() {
    let mk = |t: &str, k: DiscrepancyKind| Discrepancy {
        table: t.to_string(), item: "x".to_string(), kind: k, severity: Severity::Warning,
        expected: AttrValue::Absent, actual: AttrValue::Absent,
    };
    let issues = vec![mk("a", DiscrepancyKind::MissingTable), mk("b", DiscrepancyKind::IndexMismatch), mk("c", DiscrepancyKind::NullabilityMismatch)];
    let decisions = vec![DecisionType::AcceptRisk, DecisionType::SkipItem, DecisionType::ModifyConfig("p".to_string())];
    let ch = changes_for(&issues, &decisions);
    assert_eq!(ch.len(), 2);
    assert_eq!(ch[0].kind, OperationKind::CreateTable);
    assert_eq!(ch[1].kind, OperationKind::AlterColumn);
    assert_eq!(ch[1].table, "c");
    assert!(run_aborted(&vec![DecisionType::AcceptRisk, DecisionType::Abort]));
    assert!(!run_aborted(&vec![]));
}

#[test]
fn plan_orders_phases_and_is_deterministic() {
    let changes = vec![
        change(OperationKind::CreateIndex, "a", "ix"),
        change(OperationKind::AlterColumn, "b", "c"),
        change(OperationKind::CreateTable, "a", ""),
        change(OperationKind::AddColumn, "a", "d"),
    ];
    let loads = vec![TableLoad { table: "a".to_string(), rows: 3 }, TableLoad { table: "b".to_string(), rows: 0 }];
    let cfg = BatchConfig { batch_size: 2, commit_frequency: 1 };
    let p1 = generate_plan(&changes, &loads, &cfg);
    let kinds: Vec<OperationKind> = p1.iter().map(|o| o.kind).collect();
    assert_eq!(kinds, vec![
        OperationKind::CreateTable,
        OperationKind::AlterColumn,
        OperationKind::AddColumn,
        OperationKind::CreateIndex,
        OperationKind::InsertBatch,
        OperationKind::InsertBatch,
    ]);
    assert_eq!(p1[2].depends_on, vec![0]);
    assert_eq!(p1[3].depends_on, vec![0, 2]);
    assert_eq!(p1[4].depends_on, vec![0, 2, 3]);
    assert!(p1[1].depends_on.is_empty());
    assert_eq!(p1[5].row_count, 1);
    assert_eq!(p1[5].commit_group, 1);
    let p2 = generate_plan(&changes, &loads, &cfg);
    assert_eq!(format!("{:?}", p1), format!("{:?}", p2));
}

#[test]
fn batches_cover_all_rows() {
    for (n, b) in [(0usize, 3usize), (1, 3), (3, 3), (7, 3), (1200, 500), (1000, 500)] {
        let loads = vec![TableLoad { table: "t".to_string(), rows: n }];
        let plan = generate_plan(&vec![], &loads, &BatchConfig { batch_size: b, commit_frequency: 1 });
        assert_eq!(plan.len(), (n + b - 1) / b);
        assert_eq!(plan.iter().map(|o| o.row_count).sum::<usize>(), n);
        if n > 0 {
            let last = plan.last().unwrap().row_count;
            assert_eq!(last, if n % b == 0 { b } else { n % b });
        }
    }
}

#[test]
fn failure_isolation() {
    let changes = vec![
        change(OperationKind::CreateTable, "a", ""),
        change(OperationKind::CreateTable, "b", ""),
    ];
    let loads = vec![TableLoad { table: "a".to_string(), rows: 2 }, TableLoad { table: "b".to_string(), rows: 2 }];
    let plan = generate_plan(&changes, &loads, &BatchConfig { batch_size: 1, commit_frequency: 1 });
    assert_eq!(plan.len(), 6);
    let mut exec = Execution::new(plan.len());
    let ran = run_all(&mut exec, &plan, |i| if i == 0 { Outcome::Failure(FailureClass::Permanent) } else { Outcome::Success { rows: plan[i].row_count } });
    assert_eq!(ran, vec![0, 1, 4, 5]);
    assert_eq!(exec.status_of(0), OpStatus::Failed);
    assert_eq!(exec.status_of(2), OpStatus::Skipped);
    assert_eq!(exec.status_of(3), OpStatus::Skipped);
    assert_eq!(exec.status_of(5), OpStatus::Succeeded);
    assert!(!exec.halted());
    assert_eq!(exec.rows_processed(), 2);
}

#[test]
fn fatal_failure_halts() {
    let changes = vec![change(OperationKind::CreateTable, "a", ""), change(OperationKind::CreateTable, "b", "")];
    let plan = generate_plan(&changes, &vec![], &BatchConfig { batch_size: 1, commit_frequency: 1 });
    let mut exec = Execution::new(plan.len());
    let ran = run_all(&mut exec, &plan, |_| Outcome::Failure(FailureClass::Fatal));
    assert_eq!(ran, vec![0]);
    assert!(exec.halted());
    assert_eq!(exec.next_action(&plan), Action::Halted);
    assert_eq!(exec.status_of(1), OpStatus::Pending);
}

#[test]
fn dry_run_validates_without_target() {
    let changes = vec![change(OperationKind::CreateTable, "a", ""), change(OperationKind::AddColumn, "b", "x"), change(OperationKind::AddColumn, "c", "y")];
    let loads = vec![TableLoad { table: "a".to_string(), rows: 3 }];
    let plan = generate_plan(&changes, &loads, &BatchConfig { batch_size: 10, commit_frequency: 1 });
    let existing = vec!["b".to_string()];
    let r = dry_run(&plan, &existing);
    assert_eq!(r, vec![
        Outcome::Success { rows: 0 },
        Outcome::Success { rows: 0 },
        Outcome::Failure(FailureClass::Permanent),
        Outcome::Success { rows: 3 },
    ]);
    let again = dry_run(&plan, &vec!["a".to_string()]);
    assert_eq!(again[0], Outcome::Failure(FailureClass::Permanent));
}

#[test]
fn retry_and_backoff() {
    assert!(should_retry(FailureClass::Transient, 0, 3));
    assert!(!should_retry(FailureClass::Transient, 3, 3));
    assert!(!should_retry(FailureClass::Permanent, 0, 3));
    assert!(!should_retry(FailureClass::Fatal, 0, 3));
    assert_eq!(backoff_delay(100, 0), 100);
    assert_eq!(backoff_delay(100, 3), 800);
    assert_eq!(backoff_delay(u64::MAX / 2 + 1, 1), u64::MAX);
}

#[test]
fn report_collects_entries() {
    let mut r = MigrationReport::new(1_700_000_000);
    assert_eq!(r.start_time, 1_700_000_000);
    r.add_error("orders", "insert failed", "Fatal");
    r.add_warning("orders", "nullability differs", "Warning");
    assert_eq!(r.errors.len(), 1);
    assert_eq!(r.errors[0].message, "insert failed");
    assert_eq!(r.warnings[0].severity, "Warning");
}

#[test]
fn sorted_diff_orders_by_table_item_kind() {
    let a = vec![
        table("orders", vec![col("note", "text", Some(100), true, Some("''"))], vec![index("ix_a", &["id"], true)]),
        table("customers", vec![col("id", "integer", None, false, None)], vec![]),
    ];
    let b = vec![table("orders", vec![col("note", "text", Some(50), false, None)], vec![index("ix_b", &["id"], false)])];
    let r = sorted_diff(&a, &b);
    let keys: Vec<(String, String, DiscrepancyKind)> = r.iter().map(|d| (d.table.clone(), d.item.clone(), d.kind)).collect();
    assert_eq!(keys, vec![
        ("customers".to_string(), "".to_string(), DiscrepancyKind::MissingTable),
        ("orders".to_string(), "ix_a".to_string(), DiscrepancyKind::IndexMismatch),
        ("orders".to_string(), "ix_b".to_string(), DiscrepancyKind::IndexMismatch),
        ("orders".to_string(), "note".to_string(), DiscrepancyKind::TypeMismatch),
        ("orders".to_string(), "note".to_string(), DiscrepancyKind::NullabilityMismatch),
        ("orders".to_string(), "note".to_string(), DiscrepancyKind::DefaultValueMismatch),
    ]);
    assert!(sort_issues(Vec::new()).is_empty());
}

#[test]
fn sqlstate_classes() {
    assert_eq!(failure_class("08S01"), FailureClass::Fatal);
    assert_eq!(failure_class("08001"), FailureClass::Fatal);
    assert_eq!(failure_class("40001"), FailureClass::Transient);
    assert_eq!(failure_class("HYT00"), FailureClass::Transient);
    assert_eq!(failure_class("HYT01"), FailureClass::Transient);
    assert_eq!(failure_class("23000"), FailureClass::Permanent);
    assert_eq!(failure_class(""), FailureClass::Permanent);
    assert_eq!(failure_class("08"), FailureClass::Permanent);
}
