use vstd::prelude::*;
use crate::batch::{
    batch_count, batch_count_of, batch_len, batch_start, batch_total, lemma_batch_start_in_range,
    lemma_batches_cover,
};
use crate::config::BatchConfig;
use crate::decision::{DecisionKindModel, DecisionType};
use crate::diff::{Discrepancy, DiscrepancyKind};

verus! {

/// What an operation does to the target.
#[derive(Debug, Clone, Copy, PartialEq, Eq, Structural)]
pub enum OperationKind {
    CreateTable,
    AddColumn,
    AlterColumn,
    CreateIndex,
    InsertBatch,
}

/// The phase of an operation: creation, then alteration, then indexing, then data.
pub open spec fn phase(k: OperationKind) -> nat {
    match k {
        OperationKind::CreateTable => 0,
        OperationKind::AddColumn | OperationKind::AlterColumn => 1,
        OperationKind::CreateIndex => 2,
        OperationKind::InsertBatch => 3,
    }
}

/// Whether the operation changes the schema rather than the data.
pub open spec fn is_ddl(k: OperationKind) -> bool {
    k != OperationKind::InsertBatch
}

pub fn phase_of(k: OperationKind) -> (r: u8)
    ensures
        r as nat == phase(k),
{
    match k {
        OperationKind::CreateTable => 0,
        OperationKind::AddColumn | OperationKind::AlterColumn => 1,
        OperationKind::CreateIndex => 2,
        OperationKind::InsertBatch => 3,
    }
}

/// The schema operation that repairs a discrepancy of kind `k`.
pub open spec fn repair_kind(k: DiscrepancyKind) -> OperationKind {
    match k {
        DiscrepancyKind::MissingTable => OperationKind::CreateTable,
        DiscrepancyKind::MissingColumn => OperationKind::AddColumn,
        DiscrepancyKind::IndexMismatch => OperationKind::CreateIndex,
        _ => OperationKind::AlterColumn,
    }
}

/// The schema operation that repairs a discrepancy of kind `k`.
pub fn repair_operation(k: DiscrepancyKind) -> (r: OperationKind)
    ensures
        r == repair_kind(k),
{
    match k {
        DiscrepancyKind::MissingTable => OperationKind::CreateTable,
        DiscrepancyKind::MissingColumn => OperationKind::AddColumn,
        DiscrepancyKind::IndexMismatch => OperationKind::CreateIndex,
        _ => OperationKind::AlterColumn,
    }
}

/// One resolved schema change: the operation kind, its table and its column
/// or index (empty for a whole table).
#[derive(Debug, Clone)]
pub struct SchemaChange {
    pub kind: OperationKind,
    pub table: String,
    pub target: String,
}

/// The rows waiting to be moved into one table.
#[derive(Debug, Clone)]
pub struct TableLoad {
    pub table: String,
    pub rows: usize,
}

/// One step of a plan. An InsertBatch moves `row_count` rows from `row_start`
/// and belongs to transaction `commit_group` of its table; `depends_on`
/// holds the positions of the operations that must succeed first.
#[derive(Debug, Clone)]
pub struct Operation {
    pub kind: OperationKind,
    pub table: String,
    pub target: String,
    pub depends_on: Vec<usize>,
    pub row_start: usize,
    pub row_count: usize,
    pub commit_group: usize,
}

pub struct OpModel {
    pub kind: OperationKind,
    pub table: Seq<char>,
    pub target: Seq<char>,
    pub row_start: nat,
    pub row_count: nat,
    pub commit_group: nat,
}

impl View for Operation {
    type V = OpModel;

    open spec fn view(&self) -> OpModel {
        OpModel {
            kind: self.kind,
            table: self.table@,
            target: self.target@,
            row_start: self.row_start as nat,
            row_count: self.row_count as nat,
            commit_group: self.commit_group as nat,
        }
    }
}

pub open spec fn op_models(ops: Seq<Operation>) -> Seq<OpModel> {
    ops.map_values(|o: Operation| o@)
}

pub open spec fn change_op(c: SchemaChange) -> OpModel {
    OpModel { kind: c.kind, table: c.table@, target: c.target@, row_start: 0, row_count: 0, commit_group: 0 }
}

/// The changes of phase `p`, in input order.
pub open spec fn phase_ops(changes: Seq<SchemaChange>, p: nat) -> Seq<OpModel>
    decreases changes.len(),
{
    if changes.len() == 0 {
        Seq::empty()
    } else {
        phase_ops(changes.drop_last(), p) + if phase(changes.last().kind) == p { seq![change_op(changes.last())] } else { Seq::empty() }
    }
}

/// InsertBatch `k` of one table.
pub open spec fn load_op(table: Seq<char>, rows: nat, size: nat, frequency: nat, k: nat) -> OpModel {
    OpModel {
        kind: OperationKind::InsertBatch,
        table: table,
        target: Seq::empty(),
        row_start: batch_start(size, k),
        row_count: batch_len(rows, size, k),
        commit_group: k / frequency,
    }
}

/// The InsertBatch operations of one table.
pub open spec fn load_ops(table: Seq<char>, rows: nat, size: nat, frequency: nat) -> Seq<OpModel> {
    Seq::new(batch_count(rows, size), |k: int| load_op(table, rows, size, frequency, k as nat))
}

/// The InsertBatch operations of all loads, table by table.
pub open spec fn all_load_ops(loads: Seq<TableLoad>, size: nat, frequency: nat) -> Seq<OpModel>
    decreases loads.len(),
{
    if loads.len() == 0 {
        Seq::empty()
    } else {
        all_load_ops(loads.drop_last(), size, frequency)
            + load_ops(loads.last().table@, loads.last().rows as nat, size, frequency)
    }
}

/// The operations of a plan, in order: table creation, column changes,
/// indexes, then data.
pub open spec fn plan_ops(changes: Seq<SchemaChange>, loads: Seq<TableLoad>, size: nat, frequency: nat) -> Seq<OpModel> {
    phase_ops(changes, 0) + phase_ops(changes, 1) + phase_ops(changes, 2) + all_load_ops(loads, size, frequency)
}

/// Whether operation `j` must succeed before operation `i` starts: an earlier
/// operation of an earlier phase on the same table.
pub open spec fn needs(ops: Seq<OpModel>, i: int, j: int) -> bool {
    0 <= j < i < ops.len() && ops[j].table == ops[i].table && phase(ops[j].kind) < phase(ops[i].kind)
}

/// The dependencies of operation `i` among the first `upto` operations, in order.
pub open spec fn deps_before(ops: Seq<OpModel>, i: int, upto: int) -> Seq<usize>
    decreases upto,
{
    if upto <= 0 {
        Seq::empty()
    } else {
        deps_before(ops, i, upto - 1) + if needs(ops, i, upto - 1) { seq![(upto - 1) as usize] } else { Seq::empty() }
    }
}

fn copy_string(s: &String) -> (r: String)
    ensures
        r@ == s@,
{
    s.clone()
}

/// Appends the operations of phase `p`.
fn push_phase(changes: &Vec<SchemaChange>, p: u8, out: &mut Vec<Operation>)
    ensures
        op_models(final(out)@) == op_models(old(out)@) + phase_ops(changes@, p as nat),
        forall|i: int| 0 <= i < final(out)@.len() ==> (#[trigger] final(out)@[i]).depends_on@.len() == 0 || i < old(out)@.len(),
        forall|i: int| 0 <= i < old(out)@.len() ==> #[trigger] final(out)@[i] == old(out)@[i],
{
    let mut k: usize = 0;
    while k < changes.len()
        invariant
            k <= changes@.len(),
            op_models(out@) == op_models(old(out)@) + phase_ops(changes@.subrange(0, k as int), p as nat),
            old(out)@.len() <= out@.len(),
            forall|i: int| 0 <= i < out@.len() ==> (#[trigger] out@[i]).depends_on@.len() == 0 || i < old(out)@.len(),
            forall|i: int| 0 <= i < old(out)@.len() ==> #[trigger] out@[i] == old(out)@[i],
        decreases changes@.len() - k,
    {
        let c = &changes[k];
        let ghost before = out@;
        if phase_of(c.kind) == p {
            out.push(Operation {
                kind: c.kind,
                table: copy_string(&c.table),
                target: copy_string(&c.target),
                depends_on: Vec::new(),
                row_start: 0,
                row_count: 0,
                commit_group: 0,
            });
            assert(op_models(out@) =~= op_models(before).push(change_op(changes@[k as int])));
        } else {
            assert(op_models(out@) =~= op_models(before));
        }
        proof {
            let pre = changes@.subrange(0, k + 1);
            assert(pre.drop_last() =~= changes@.subrange(0, k as int));
        }
        k = k + 1;
        assert(op_models(out@) =~= op_models(old(out)@) + phase_ops(changes@.subrange(0, k as int), p as nat));
    }
    assert(changes@.subrange(0, k as int) =~= changes@);
}

/// Appends the InsertBatch operations of every load.
fn push_loads(loads: &Vec<TableLoad>, size: usize, frequency: usize, out: &mut Vec<Operation>)
    requires
        size > 0,
        frequency > 0,
    ensures
        op_models(final(out)@) == op_models(old(out)@) + all_load_ops(loads@, size as nat, frequency as nat),
        forall|i: int| 0 <= i < final(out)@.len() ==> (#[trigger] final(out)@[i]).depends_on@.len() == 0 || i < old(out)@.len(),
        forall|i: int| 0 <= i < old(out)@.len() ==> #[trigger] final(out)@[i] == old(out)@[i],
{
    let mut t: usize = 0;
    while t < loads.len()
        invariant
            size > 0,
            frequency > 0,
            t <= loads@.len(),
            op_models(out@) == op_models(old(out)@) + all_load_ops(loads@.subrange(0, t as int), size as nat, frequency as nat),
            old(out)@.len() <= out@.len(),
            forall|i: int| 0 <= i < out@.len() ==> (#[trigger] out@[i]).depends_on@.len() == 0 || i < old(out)@.len(),
            forall|i: int| 0 <= i < old(out)@.len() ==> #[trigger] out@[i] == old(out)@[i],
        decreases loads@.len() - t,
    {
        let load = &loads[t];
        let ghost before_load = out@;
        let n = load.rows;
        let count = batch_count_of(n, size);
        let ghost base = op_models(out@);
        let ghost all = load_ops(load.table@, n as nat, size as nat, frequency as nat);
        let mut k: usize = 0;
        while k < count
            invariant
                size > 0,
                frequency > 0,
                count == batch_count(n as nat, size as nat),
                k <= count,
                all == load_ops(load.table@, n as nat, size as nat, frequency as nat),
                op_models(out@) == base + all.subrange(0, k as int),
                old(out)@.len() <= out@.len(),
                forall|i: int| 0 <= i < out@.len() ==> (#[trigger] out@[i]).depends_on@.len() == 0 || i < old(out)@.len(),
                forall|i: int| 0 <= i < old(out)@.len() ==> #[trigger] out@[i] == old(out)@[i],
            decreases count - k,
        {
            proof { lemma_batch_start_in_range(n as nat, size as nat, k as nat); }
            let start = k * size;
            let len = if n - start >= size { size } else { n - start };
            let ghost prev = out@;
            out.push(Operation {
                kind: OperationKind::InsertBatch,
                table: copy_string(&load.table),
                target: String::new(),
                depends_on: Vec::new(),
                row_start: start,
                row_count: len,
                commit_group: k / frequency,
            });
            assert(all[k as int].row_count == len as nat);
            assert(op_models(out@) =~= op_models(prev).push(all[k as int]));
            k = k + 1;
            assert(op_models(out@) =~= base + all.subrange(0, k as int));
        }
        assert(all.subrange(0, k as int) =~= all);
        proof {
            let pre = loads@.subrange(0, t + 1);
            assert(pre.drop_last() =~= loads@.subrange(0, t as int));
        }
        t = t + 1;
        assert(op_models(out@) =~= op_models(old(out)@) + all_load_ops(loads@.subrange(0, t as int), size as nat, frequency as nat));
    }
    assert(loads@.subrange(0, t as int) =~= loads@);
}

/// The positions among the first `i` operations that operation `i` needs.
fn dependencies_of(ops: &Vec<Operation>, i: usize) -> (r: Vec<usize>)
    requires
        i < ops@.len(),
    ensures
        r@ == deps_before(op_models(ops@), i as int, i as int),
{
    let ghost m = op_models(ops@);
    let mut r: Vec<usize> = Vec::new();
    let mut j: usize = 0;
    while j < i
        invariant
            i < ops@.len(),
            m == op_models(ops@),
            j <= i,
            r@ == deps_before(m, i as int, j as int),
        decreases i - j,
    {
        if ops[j].table == ops[i].table && phase_of(ops[j].kind) < phase_of(ops[i].kind) {
            r.push(j);
        }
        j = j + 1;
        assert(r@ =~= deps_before(m, i as int, j as int));
    }
    r
}

/// The same operations, each with its dependencies filled in.
fn with_dependencies(ops: &Vec<Operation>) -> (r: Vec<Operation>)
    ensures
        op_models(r@) == op_models(ops@),
        forall|i: int| 0 <= i < r@.len() ==> #[trigger] r@[i].depends_on@ == deps_before(op_models(ops@), i, i),
{
    let mut r: Vec<Operation> = Vec::new();
    let mut i: usize = 0;
    while i < ops.len()
        invariant
            i <= ops@.len(),
            op_models(r@) == op_models(ops@.subrange(0, i as int)),
            forall|k: int| 0 <= k < r@.len() ==> #[trigger] r@[k].depends_on@ == deps_before(op_models(ops@), k, k),
        decreases ops@.len() - i,
    {
        let deps = dependencies_of(ops, i);
        let o = &ops[i];
        let ghost prev = r@;
        r.push(Operation {
            kind: o.kind,
            table: copy_string(&o.table),
            target: copy_string(&o.target),
            depends_on: deps,
            row_start: o.row_start,
            row_count: o.row_count,
            commit_group: o.commit_group,
        });
        assert(op_models(r@) =~= op_models(prev).push(ops@[i as int]@));
        assert(op_models(ops@.subrange(0, i + 1)) =~= op_models(ops@.subrange(0, i as int)).push(ops@[i as int]@));
        i = i + 1;
    }
    assert(ops@.subrange(0, i as int) =~= ops@);
    r
}

/// Compiles resolved schema changes and pending rows into an ordered plan:
/// every CreateTable, then every AddColumn and AlterColumn, then every
/// CreateIndex, each group in input order, then each table's rows in batches
/// of `batch_size`, batch `k` in transaction `k / commit_frequency`. Each
/// operation depends on the earlier operations of earlier phases on its table.
pub fn generate_plan(changes: &Vec<SchemaChange>, loads: &Vec<TableLoad>, batch: &BatchConfig) -> (r: Vec<Operation>)
    requires
        batch.batch_size > 0,
        batch.commit_frequency > 0,
    ensures
        op_models(r@) == plan_ops(changes@, loads@, batch.batch_size as nat, batch.commit_frequency as nat),
        forall|i: int| 0 <= i < r@.len() ==> #[trigger] r@[i].depends_on@ == deps_before(op_models(r@), i, i),
        plan_wf(r@),
{
    let mut ops: Vec<Operation> = Vec::new();
    push_phase(changes, 0, &mut ops);
    push_phase(changes, 1, &mut ops);
    push_phase(changes, 2, &mut ops);
    push_loads(loads, batch.batch_size, batch.commit_frequency, &mut ops);
    assert(op_models(ops@) =~= plan_ops(changes@, loads@, batch.batch_size as nat, batch.commit_frequency as nat));
    let r = with_dependencies(&ops);
    proof { lemma_generated_plan_acyclic(r@); }
    r
}

proof fn lemma_phase_ops_phase(changes: Seq<SchemaChange>, p: nat)
    ensures
        forall|i: int| 0 <= i < phase_ops(changes, p).len() ==> #[trigger] phase(phase_ops(changes, p)[i].kind) == p,
    decreases changes.len(),
{
    if changes.len() > 0 {
        lemma_phase_ops_phase(changes.drop_last(), p);
    }
}

proof fn lemma_load_ops_kind(loads: Seq<TableLoad>, size: nat, frequency: nat)
    ensures
        forall|i: int| 0 <= i < all_load_ops(loads, size, frequency).len()
            ==> #[trigger] all_load_ops(loads, size, frequency)[i].kind == OperationKind::InsertBatch,
    decreases loads.len(),
{
    if loads.len() > 0 {
        lemma_load_ops_kind(loads.drop_last(), size, frequency);
        let prev = all_load_ops(loads.drop_last(), size, frequency);
        let last = load_ops(loads.last().table@, loads.last().rows as nat, size, frequency);
        assert forall|i: int| 0 <= i < all_load_ops(loads, size, frequency).len()
            implies #[trigger] all_load_ops(loads, size, frequency)[i].kind == OperationKind::InsertBatch by {
            if i >= prev.len() {
                assert(all_load_ops(loads, size, frequency)[i] == last[i - prev.len()]);
            } else {
                assert(all_load_ops(loads, size, frequency)[i] == prev[i]);
            }
        }
    }
}

/// A plan never goes back to an earlier phase: every CreateTable precedes
/// every AddColumn and AlterColumn, which precede every CreateIndex, and all
/// schema operations precede all InsertBatch operations.
pub proof fn lemma_plan_ordered(changes: Seq<SchemaChange>, loads: Seq<TableLoad>, size: nat, frequency: nat)
    ensures
        forall|i: int, j: int| 0 <= i < j < plan_ops(changes, loads, size, frequency).len() ==>
            phase(#[trigger] plan_ops(changes, loads, size, frequency)[i].kind)
                <= phase(#[trigger] plan_ops(changes, loads, size, frequency)[j].kind),
        forall|i: int, j: int| 0 <= i < j < plan_ops(changes, loads, size, frequency).len()
            && is_ddl(#[trigger] plan_ops(changes, loads, size, frequency)[j].kind)
            ==> is_ddl(#[trigger] plan_ops(changes, loads, size, frequency)[i].kind),
{
    let p0 = phase_ops(changes, 0);
    let p1 = phase_ops(changes, 1);
    let p2 = phase_ops(changes, 2);
    let l = all_load_ops(loads, size, frequency);
    let ops = plan_ops(changes, loads, size, frequency);
    lemma_phase_ops_phase(changes, 0);
    lemma_phase_ops_phase(changes, 1);
    lemma_phase_ops_phase(changes, 2);
    lemma_load_ops_kind(loads, size, frequency);
    let a = p0.len();
    let b = a + p1.len();
    let c = b + p2.len();
    assert forall|i: int| 0 <= i < ops.len() implies #[trigger] phase(ops[i].kind) == if i < a { 0nat } else if i < b { 1nat } else if i < c { 2nat } else { 3nat } by {
        if i < a {
            assert(ops[i] == p0[i]);
        } else if i < b {
            assert(ops[i] == p1[i - a]);
        } else if i < c {
            assert(ops[i] == p2[i - b]);
        } else {
            assert(ops[i] == l[i - c]);
        }
    }
    assert forall|i: int, j: int| 0 <= i < j < ops.len() implies phase(#[trigger] ops[i].kind) <= phase(#[trigger] ops[j].kind) by {
        assert(phase(ops[i].kind) == if i < a { 0nat } else if i < b { 1nat } else if i < c { 2nat } else { 3nat });
        assert(phase(ops[j].kind) == if j < a { 0nat } else if j < b { 1nat } else if j < c { 2nat } else { 3nat });
    }
    assert forall|i: int, j: int| 0 <= i < j < ops.len() && is_ddl(#[trigger] ops[j].kind) implies is_ddl(#[trigger] ops[i].kind) by {
        assert(phase(ops[i].kind) <= phase(ops[j].kind));
    }
}

/// The rows that a list of operations moves.
pub open spec fn rows_moved(ops: Seq<OpModel>) -> nat
    decreases ops.len(),
{
    if ops.len() == 0 { 0 } else { rows_moved(ops.drop_last()) + ops.last().row_count }
}

proof fn lemma_rows_moved_prefix(table: Seq<char>, n: nat, size: nat, frequency: nat, k: nat)
    requires
        k <= batch_count(n, size),
    ensures
        rows_moved(load_ops(table, n, size, frequency).subrange(0, k as int)) == batch_total(n, size, k),
    decreases k,
{
    let ops = load_ops(table, n, size, frequency);
    assert(ops.len() == batch_count(n, size));
    if k > 0 {
        lemma_rows_moved_prefix(table, n, size, frequency, (k - 1) as nat);
        let pre = ops.subrange(0, k as int);
        assert(pre.drop_last() =~= ops.subrange(0, k - 1));
        assert(pre.last() == ops[k - 1]);
        assert(ops[k - 1].row_count == batch_len(n, size, (k - 1) as nat));
    } else {
        assert(ops.subrange(0, 0) =~= Seq::<OpModel>::empty());
    }
}

/// The InsertBatch operations for `n` rows in batches of `size`: exactly
/// ⌈n / size⌉ of them, the last holding `n % size` rows (or `size` when
/// `size` divides `n`), all rows moved once in order, and batch `k` in
/// transaction `k / frequency`.
pub proof fn lemma_load_batches(table: Seq<char>, n: nat, size: nat, frequency: nat)
    requires
        size > 0,
        frequency > 0,
    ensures
        load_ops(table, n, size, frequency).len() == batch_count(n, size),
        load_ops(table, n, size, frequency).len() * size >= n,
        load_ops(table, n, size, frequency).len() > 0 ==> (load_ops(table, n, size, frequency).len() - 1) * size < n,
        n > 0 ==> load_ops(table, n, size, frequency).last().row_count == if n % size == 0 { size } else { n % size },
        rows_moved(load_ops(table, n, size, frequency)) == n,
        forall|k: int| 0 <= k < load_ops(table, n, size, frequency).len() ==> {
            let o = #[trigger] load_ops(table, n, size, frequency)[k];
            &&& o.kind == OperationKind::InsertBatch
            &&& o.table == table
            &&& o.row_start == k * size
            &&& o.commit_group == k / (frequency as int)
            &&& k + 1 < load_ops(table, n, size, frequency).len() ==> o.row_count == size
        },
{
    let ops = load_ops(table, n, size, frequency);
    let c = batch_count(n, size);
    lemma_batches_cover(n, size);
    lemma_rows_moved_prefix(table, n, size, frequency, c);
    assert(ops.subrange(0, c as int) =~= ops);
    assert forall|k: int| 0 <= k < ops.len() implies {
        let o = #[trigger] ops[k];
        &&& o.kind == OperationKind::InsertBatch
        &&& o.table == table
        &&& o.row_start == k * size
        &&& o.commit_group == k / (frequency as int)
        &&& k + 1 < ops.len() ==> o.row_count == size
    } by {
        if k + 1 < ops.len() {
            lemma_batch_start_in_range(n, size, (k + 1) as nat);
            lemma_batch_start_in_range(n, size, k as nat);
        }
    }
}

/// What a plan depends on in a schema change.
pub open spec fn change_key(c: SchemaChange) -> (OperationKind, Seq<char>, Seq<char>) {
    (c.kind, c.table@, c.target@)
}

/// What a plan depends on in a load.
pub open spec fn load_key(l: TableLoad) -> (Seq<char>, usize) {
    (l.table@, l.rows)
}

proof fn lemma_phase_ops_same(c1: Seq<SchemaChange>, c2: Seq<SchemaChange>, p: nat)
    requires
        c1.map_values(|c: SchemaChange| change_key(c)) == c2.map_values(|c: SchemaChange| change_key(c)),
    ensures
        phase_ops(c1, p) == phase_ops(c2, p),
    decreases c1.len(),
{
    let f = |c: SchemaChange| change_key(c);
    assert(c1.len() == c1.map_values(f).len());
    if c1.len() > 0 {
        assert(c1.drop_last().map_values(f) =~= c1.map_values(f).drop_last());
        assert(c2.drop_last().map_values(f) =~= c2.map_values(f).drop_last());
        lemma_phase_ops_same(c1.drop_last(), c2.drop_last(), p);
        assert(c1.map_values(f)[c1.len() - 1] == c2.map_values(f)[c1.len() - 1]);
    }
}

proof fn lemma_load_ops_same(l1: Seq<TableLoad>, l2: Seq<TableLoad>, size: nat, frequency: nat)
    requires
        l1.map_values(|l: TableLoad| load_key(l)) == l2.map_values(|l: TableLoad| load_key(l)),
    ensures
        all_load_ops(l1, size, frequency) == all_load_ops(l2, size, frequency),
    decreases l1.len(),
{
    let f = |l: TableLoad| load_key(l);
    assert(l1.len() == l1.map_values(f).len());
    if l1.len() > 0 {
        assert(l1.drop_last().map_values(f) =~= l1.map_values(f).drop_last());
        assert(l2.drop_last().map_values(f) =~= l2.map_values(f).drop_last());
        lemma_load_ops_same(l1.drop_last(), l2.drop_last(), size, frequency);
        assert(l1.map_values(f)[l1.len() - 1] == l2.map_values(f)[l1.len() - 1]);
    }
}

/// Plan generation is deterministic: inputs with the same changes and loads
/// give the same operations with the same dependencies.
pub proof fn lemma_plan_deterministic(
    c1: Seq<SchemaChange>,
    c2: Seq<SchemaChange>,
    l1: Seq<TableLoad>,
    l2: Seq<TableLoad>,
    size: nat,
    frequency: nat,
)
    requires
        c1.map_values(|c: SchemaChange| change_key(c)) == c2.map_values(|c: SchemaChange| change_key(c)),
        l1.map_values(|l: TableLoad| load_key(l)) == l2.map_values(|l: TableLoad| load_key(l)),
    ensures
        plan_ops(c1, l1, size, frequency) == plan_ops(c2, l2, size, frequency),
        forall|i: int| #[trigger] deps_before(plan_ops(c1, l1, size, frequency), i, i)
            == deps_before(plan_ops(c2, l2, size, frequency), i, i),
{
    lemma_phase_ops_same(c1, c2, 0);
    lemma_phase_ops_same(c1, c2, 1);
    lemma_phase_ops_same(c1, c2, 2);
    lemma_load_ops_same(l1, l2, size, frequency);
}

/// Every dependency of an operation is an earlier operation.
pub open spec fn plan_wf(plan: Seq<Operation>) -> bool {
    forall|i: int, k: int| 0 <= i < plan.len() && 0 <= k < plan[i].depends_on@.len()
        ==> (#[trigger] plan[i].depends_on@[k]) < i
}

proof fn lemma_deps_before_earlier(ops: Seq<OpModel>, i: int, upto: int)
    ensures
        forall|k: int| 0 <= k < deps_before(ops, i, upto).len() ==> #[trigger] deps_before(ops, i, upto)[k] < i,
    decreases upto,
{
    if upto > 0 {
        lemma_deps_before_earlier(ops, i, upto - 1);
        let prev = deps_before(ops, i, upto - 1);
        assert forall|k: int| 0 <= k < deps_before(ops, i, upto).len() implies #[trigger] deps_before(ops, i, upto)[k] < i by {
            if k >= prev.len() {
                assert(needs(ops, i, upto - 1));
            } else {
                assert(deps_before(ops, i, upto)[k] == prev[k]);
            }
        }
    }
}

/// A generated plan only depends backwards, so it has no dependency cycle.
pub proof fn lemma_generated_plan_acyclic(plan: Seq<Operation>)
    requires
        forall|i: int| 0 <= i < plan.len() ==> #[trigger] plan[i].depends_on@ == deps_before(op_models(plan), i, i),
    ensures
        plan_wf(plan),
{
    assert forall|i: int, k: int| 0 <= i < plan.len() && 0 <= k < plan[i].depends_on@.len()
        implies (#[trigger] plan[i].depends_on@[k]) < i by {
        lemma_deps_before_earlier(op_models(plan), i, i);
    }
}

/// Whether a decision lets its discrepancy go on to the plan.
pub open spec fn proceeds(d: DecisionKindModel) -> bool {
    !(d is SkipItem || d is Abort)
}

/// The schema change that repairs discrepancy `d`.
pub open spec fn repair_change(d: Discrepancy) -> (OperationKind, Seq<char>, Seq<char>) {
    (repair_kind(d.kind), d.table@, d.item@)
}

/// The changes for the discrepancies whose decisions proceed, in order.
pub open spec fn resolved_changes(issues: Seq<Discrepancy>, decisions: Seq<DecisionType>) -> Seq<(OperationKind, Seq<char>, Seq<char>)>
    decreases issues.len(),
{
    if issues.len() == 0 || decisions.len() != issues.len() {
        Seq::empty()
    } else {
        resolved_changes(issues.drop_last(), decisions.drop_last())
            + if proceeds(decisions.last()@) { seq![repair_change(issues.last())] } else { Seq::empty() }
    }
}

/// Whether any decision aborts the run.
pub open spec fn aborted(decisions: Seq<DecisionType>) -> bool {
    exists|i: int| 0 <= i < decisions.len() && #[trigger] decisions[i]@ is Abort
}

/// Whether the operator aborted the run: then no plan is made.
pub fn run_aborted(decisions: &Vec<DecisionType>) -> (r: bool)
    ensures
        r == aborted(decisions@),
{
    let mut i: usize = 0;
    while i < decisions.len()
        invariant
            i <= decisions@.len(),
            forall|k: int| 0 <= k < i ==> !(#[trigger] decisions@[k]@ is Abort),
        decreases decisions@.len() - i,
    {
        if let DecisionType::Abort = decisions[i] {
            assert(decisions@[i as int]@ is Abort);
            return true;
        }
        i = i + 1;
    }
    false
}

/// The schema changes of the discrepancies whose decisions neither skip
/// them nor abort, in order; `decisions[i]` resolves `issues[i]`.
pub fn changes_for(issues: &Vec<Discrepancy>, decisions: &Vec<DecisionType>) -> (r: Vec<SchemaChange>)
    requires
        issues@.len() == decisions@.len(),
    ensures
        r@.map_values(|c: SchemaChange| change_key(c)) == resolved_changes(issues@, decisions@),
{
    let mut r: Vec<SchemaChange> = Vec::new();
    let mut i: usize = 0;
    while i < issues.len()
        invariant
            issues@.len() == decisions@.len(),
            i <= issues@.len(),
            r@.map_values(|c: SchemaChange| change_key(c))
                == resolved_changes(issues@.subrange(0, i as int), decisions@.subrange(0, i as int)),
        decreases issues@.len() - i,
    {
        let ghost prev = r@;
        if decisions[i].proceeds() {
            let d = &issues[i];
            r.push(SchemaChange { kind: repair_operation(d.kind), table: copy_string(&d.table), target: copy_string(&d.item) });
        }
        proof {
            let is = issues@.subrange(0, i + 1);
            let ds = decisions@.subrange(0, i + 1);
            assert(is.drop_last() =~= issues@.subrange(0, i as int));
            assert(ds.drop_last() =~= decisions@.subrange(0, i as int));
        }
        i = i + 1;
        assert(r@.map_values(|c: SchemaChange| change_key(c))
            =~= resolved_changes(issues@.subrange(0, i as int), decisions@.subrange(0, i as int)));
    }
    assert(issues@.subrange(0, i as int) =~= issues@);
    assert(decisions@.subrange(0, i as int) =~= decisions@);
    r
}

} // verus!
