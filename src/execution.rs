use vstd::prelude::*;
use crate::metadata::names;
use crate::plan::{plan_wf, Operation, OperationKind};

verus! {

/// Where one operation of a plan stands.
#[derive(Debug, Clone, Copy, PartialEq, Eq, Structural)]
pub enum OpStatus {
    Pending,
    Succeeded,
    Failed,
    /// Never started, because something it depends on did not succeed.
    Skipped,
}

/// How an operation failed.
#[derive(Debug, Clone, Copy, PartialEq, Eq, Structural)]
pub enum FailureClass {
    /// A timeout or deadlock: worth retrying.
    Transient,
    /// A constraint violation or similar: retrying cannot help.
    Permanent,
    /// A lost connection: the whole run stops.
    Fatal,
}

/// What running an operation on the target gave.
#[derive(Debug, Clone, Copy, PartialEq, Eq, Structural)]
pub enum Outcome {
    Success { rows: usize },
    Failure(FailureClass),
}

/// What the runner should do next.
#[derive(Debug, Clone, Copy, PartialEq, Eq, Structural)]
pub enum Action {
    Run(usize),
    Skip(usize),
    Finished,
    Halted,
}

/// Whether every dependency of `plan[i]` has succeeded.
pub open spec fn deps_succeeded(plan: Seq<Operation>, st: Seq<OpStatus>, i: int) -> bool {
    forall|k: int| 0 <= k < plan[i].depends_on@.len()
        ==> st[#[trigger] plan[i].depends_on@[k] as int] == OpStatus::Succeeded
}

/// An operation succeeded or was started only after all it depends on succeeded.
pub open spec fn consistent(plan: Seq<Operation>, st: Seq<OpStatus>) -> bool {
    forall|i: int| 0 <= i < st.len() && (#[trigger] st[i] == OpStatus::Succeeded || st[i] == OpStatus::Failed)
        ==> deps_succeeded(plan, st, i)
}

/// The state of a run over a plan: one status per operation, whether a Fatal
/// failure stopped it, and the progress counters.
pub struct Execution {
    statuses: Vec<OpStatus>,
    halted: bool,
    rows_processed: u64,
    ops_processed: usize,
}

impl Execution {
    pub closed spec fn status(&self) -> Seq<OpStatus> {
        self.statuses@
    }

    pub closed spec fn is_halted(&self) -> bool {
        self.halted
    }

    pub closed spec fn rows_spec(&self) -> nat {
        self.rows_processed as nat
    }

    pub closed spec fn ops_spec(&self) -> nat {
        self.ops_processed as nat
    }

    /// A run over `n` operations, none started.
    pub fn new(n: usize) -> (r: Execution)
        ensures
            r.status().len() == n,
            forall|i: int| 0 <= i < n ==> #[trigger] r.status()[i] == OpStatus::Pending,
            !r.is_halted(),
            r.rows_spec() == 0,
            r.ops_spec() == 0,
            forall|plan: Seq<Operation>| consistent(plan, #[trigger] r.status()),
    {
        let mut statuses: Vec<OpStatus> = Vec::new();
        let mut i: usize = 0;
        while i < n
            invariant
                i <= n,
                statuses@.len() == i,
                forall|k: int| 0 <= k < i ==> #[trigger] statuses@[k] == OpStatus::Pending,
            decreases n - i,
        {
            statuses.push(OpStatus::Pending);
            i = i + 1;
        }
        Execution { statuses, halted: false, rows_processed: 0, ops_processed: 0 }
    }

    /// The status of operation `i`.
    pub fn status_of(&self, i: usize) -> (r: OpStatus)
        requires
            i < self.status().len(),
        ensures
            r == self.status()[i as int],
    {
        self.statuses[i]
    }

    /// Whether a Fatal failure stopped the run.
    pub fn halted(&self) -> (r: bool)
        ensures
            r == self.is_halted(),
    {
        self.halted
    }

    /// Rows moved so far; it only grows.
    pub fn rows_processed(&self) -> (r: u64)
        ensures
            r == self.rows_spec(),
    {
        self.rows_processed
    }

    /// Operations finished so far, whatever their outcome; it only grows.
    pub fn ops_processed(&self) -> (r: usize)
        ensures
            r == self.ops_spec(),
    {
        self.ops_processed
    }

    fn all_deps_succeeded(&self, plan: &Vec<Operation>, i: usize) -> (r: bool)
        requires
            i < plan@.len(),
            plan@.len() == self.status().len(),
            plan_wf(plan@),
        ensures
            r == deps_succeeded(plan@, self.status(), i as int),
    {
        let deps = &plan[i].depends_on;
        let mut k: usize = 0;
        while k < deps.len()
            invariant
                i < plan@.len(),
                plan@.len() == self.statuses@.len(),
                plan_wf(plan@),
                deps == &plan@[i as int].depends_on,
                k <= deps@.len(),
                forall|j: int| 0 <= j < k ==> self.statuses@[#[trigger] deps@[j] as int] == OpStatus::Succeeded,
            decreases deps@.len() - k,
        {
            let d = deps[k];
            assert(plan@[i as int].depends_on@[k as int] < i);
            if self.statuses[d] != OpStatus::Succeeded {
                return false;
            }
            k = k + 1;
        }
        true
    }

    /// The next step, taking operations in plan order: the first pending
    /// operation is run when everything it depends on succeeded, and skipped
    /// otherwise. Nothing more starts once a Fatal failure has stopped the run.
    pub fn next_action(&self, plan: &Vec<Operation>) -> (r: Action)
        requires
            plan_wf(plan@),
            plan@.len() == self.status().len(),
        ensures
            r == Action::Halted <==> self.is_halted() && exists|i: int| 0 <= i < self.status().len()
                && #[trigger] self.status()[i] == OpStatus::Pending,
            r == Action::Finished ==> forall|i: int| 0 <= i < self.status().len() ==> #[trigger] self.status()[i] != OpStatus::Pending,
            r matches Action::Run(i) ==> i < self.status().len() && self.status()[i as int] == OpStatus::Pending
                && !self.is_halted() && deps_succeeded(plan@, self.status(), i as int)
                && forall|j: int| 0 <= j < i ==> #[trigger] self.status()[j] != OpStatus::Pending,
            r matches Action::Skip(i) ==> i < self.status().len() && self.status()[i as int] == OpStatus::Pending
                && !self.is_halted() && !deps_succeeded(plan@, self.status(), i as int)
                && forall|j: int| 0 <= j < i ==> #[trigger] self.status()[j] != OpStatus::Pending,
    {
        let mut i: usize = 0;
        while i < self.statuses.len()
            invariant
                i <= self.statuses@.len(),
                plan@.len() == self.statuses@.len(),
                plan_wf(plan@),
                forall|j: int| 0 <= j < i ==> #[trigger] self.statuses@[j] != OpStatus::Pending,
            decreases self.statuses@.len() - i,
        {
            if self.statuses[i] == OpStatus::Pending {
                if self.halted {
                    return Action::Halted;
                }
                if self.all_deps_succeeded(plan, i) {
                    return Action::Run(i);
                } else {
                    return Action::Skip(i);
                }
            }
            i = i + 1;
        }
        Action::Finished
    }

    /// Marks a pending operation whose dependencies did not all succeed as skipped.
    pub fn skip(&mut self, plan: &Vec<Operation>, i: usize)
        requires
            i < old(self).status().len(),
            plan@.len() == old(self).status().len(),
            old(self).status()[i as int] == OpStatus::Pending,
            plan_wf(plan@),
            consistent(plan@, old(self).status()),
        ensures
            final(self).status() == old(self).status().update(i as int, OpStatus::Skipped),
            final(self).is_halted() == old(self).is_halted(),
            final(self).rows_spec() == old(self).rows_spec(),
            final(self).ops_spec() == old(self).ops_spec() + 1 || final(self).ops_spec() == old(self).ops_spec(),
            consistent(plan@, final(self).status()),
    {
        self.statuses.set(i, OpStatus::Skipped);
        if self.ops_processed < usize::MAX {
            self.ops_processed = self.ops_processed + 1;
        }
        proof {
            let st = self.statuses@;
            let st0 = old(self).statuses@;
            assert forall|j: int| 0 <= j < st.len() && (#[trigger] st[j] == OpStatus::Succeeded || st[j] == OpStatus::Failed)
                implies deps_succeeded(plan@, st, j) by {
                assert(st0[j] == st[j]);
                assert(deps_succeeded(plan@, st0, j));
                assert forall|k: int| 0 <= k < plan@[j].depends_on@.len()
                    implies st[#[trigger] plan@[j].depends_on@[k] as int] == OpStatus::Succeeded by {
                    let d = plan@[j].depends_on@[k] as int;
                    assert(d < j);
                    assert(st0[d] == OpStatus::Succeeded);
                }
            }
        }
    }

    /// Records the outcome of an operation that was run. A Fatal failure stops
    /// the run; any other failure leaves the other operations to go on.
    pub fn complete(&mut self, plan: &Vec<Operation>, i: usize, outcome: Outcome)
        requires
            i < old(self).status().len(),
            plan@.len() == old(self).status().len(),
            old(self).status()[i as int] == OpStatus::Pending,
            deps_succeeded(plan@, old(self).status(), i as int),
            plan_wf(plan@),
            consistent(plan@, old(self).status()),
        ensures
            final(self).status() == old(self).status().update(i as int,
                if outcome is Success { OpStatus::Succeeded } else { OpStatus::Failed }),
            final(self).is_halted() == (old(self).is_halted() || outcome == Outcome::Failure(FailureClass::Fatal)),
            final(self).rows_spec() >= old(self).rows_spec(),
            outcome matches Outcome::Success { rows } ==> final(self).rows_spec() == if old(self).rows_spec() + rows <= u64::MAX {
                old(self).rows_spec() + rows } else { u64::MAX as int },
            outcome is Failure ==> final(self).rows_spec() == old(self).rows_spec(),
            final(self).ops_spec() >= old(self).ops_spec(),
            consistent(plan@, final(self).status()),
    {
        let ghost st0 = self.statuses@;
        match outcome {
            Outcome::Success { rows } => {
                self.statuses.set(i, OpStatus::Succeeded);
                let rows = rows as u64;
                if self.rows_processed <= u64::MAX - rows {
                    self.rows_processed = self.rows_processed + rows;
                } else {
                    self.rows_processed = u64::MAX;
                }
            },
            Outcome::Failure(class) => {
                self.statuses.set(i, OpStatus::Failed);
                if class == FailureClass::Fatal {
                    self.halted = true;
                }
            },
        }
        if self.ops_processed < usize::MAX {
            self.ops_processed = self.ops_processed + 1;
        }
        proof {
            let st = self.statuses@;
            assert forall|j: int| 0 <= j < st.len() && (#[trigger] st[j] == OpStatus::Succeeded || st[j] == OpStatus::Failed)
                implies deps_succeeded(plan@, st, j) by {
                if j != i {
                    assert(st0[j] == st[j]);
                    assert(deps_succeeded(plan@, st0, j));
                }
                assert forall|k: int| 0 <= k < plan@[j].depends_on@.len()
                    implies st[#[trigger] plan@[j].depends_on@[k] as int] == OpStatus::Succeeded by {
                    let d = plan@[j].depends_on@[k] as int;
                    assert(d < j);
                    assert(st0[d] == OpStatus::Succeeded);
                    if d == i {
                        assert(st0[i as int] == OpStatus::Pending);
                    }
                }
            }
        }
    }
}

/// Whether a failed attempt is tried again: only transient failures, and only
/// while attempts remain.
pub fn should_retry(class: FailureClass, attempt: u32, max_retries: u32) -> (r: bool)
    ensures
        r == (class == FailureClass::Transient && attempt < max_retries),
{
    class == FailureClass::Transient && attempt < max_retries
}

/// `base * 2^attempt`, capped at `u64::MAX`.
pub open spec fn backoff(base: nat, attempt: nat) -> nat
    decreases attempt,
{
    if attempt == 0 {
        if base <= u64::MAX { base } else { u64::MAX as nat }
    } else {
        let prev = backoff(base, (attempt - 1) as nat);
        if 2 * prev <= u64::MAX { 2 * prev } else { u64::MAX as nat }
    }
}

/// The delay before retry `attempt`: exponential in the attempt, saturating.
pub fn backoff_delay(base: u64, attempt: u32) -> (r: u64)
    ensures
        r == backoff(base as nat, attempt as nat),
{
    let mut d: u64 = base;
    let mut k: u32 = 0;
    while k < attempt
        invariant
            k <= attempt,
            d == backoff(base as nat, k as nat),
        decreases attempt - k,
    {
        if d <= u64::MAX / 2 {
            d = 2 * d;
        } else {
            d = u64::MAX;
        }
        k = k + 1;
    }
    d
}

/// Whether InsertBatch `i` closes its transaction: the next operation is not
/// a batch of the same table in the same commit group.
pub open spec fn closes_transaction(plan: Seq<Operation>, i: int) -> bool {
    plan[i].kind == OperationKind::InsertBatch && (i + 1 >= plan.len() || !(
        plan[i + 1].kind == OperationKind::InsertBatch && plan[i + 1].table@ == plan[i].table@
            && plan[i + 1].commit_group == plan[i].commit_group))
}

/// Whether the runner commits after InsertBatch `i`.
pub fn commits_after(plan: &Vec<Operation>, i: usize) -> (r: bool)
    requires
        i < plan@.len(),
    ensures
        r == closes_transaction(plan@, i as int),
{
    if plan[i].kind != OperationKind::InsertBatch {
        return false;
    }
    if i >= plan.len() - 1 {
        return true;
    }
    let next = &plan[i + 1];
    !(next.kind == OperationKind::InsertBatch && next.table == plan[i].table && next.commit_group == plan[i].commit_group)
}

/// Whether `path` follows dependency edges of `plan`: each entry depends
/// directly on the next.
pub open spec fn dependency_chain(plan: Seq<Operation>, path: Seq<int>) -> bool {
    &&& path.len() >= 1
    &&& forall|k: int| 0 <= k < path.len() - 1 ==> {
        &&& 0 <= #[trigger] path[k] < plan.len()
        &&& exists|m: int| 0 <= m < plan[path[k]].depends_on@.len() && plan[path[k]].depends_on@[m] == path[k + 1]
    }
}

/// Operations that depend, directly or transitively, on one that did not
/// succeed never execute: in every state that the run's steps reach, an
/// operation that was run (and succeeded or failed) has every operation down
/// any dependency chain from it succeeded.
pub proof fn lemma_failure_isolation(plan: Seq<Operation>, st: Seq<OpStatus>, path: Seq<int>)
    requires
        plan_wf(plan),
        st.len() == plan.len(),
        consistent(plan, st),
        dependency_chain(plan, path),
        0 <= path[0] < st.len(),
        st[path[0]] == OpStatus::Succeeded || st[path[0]] == OpStatus::Failed,
    ensures
        st[path.last()] == OpStatus::Succeeded || (path.len() == 1 && st[path[0]] == OpStatus::Failed),
    decreases path.len(),
{
    if path.len() > 1 {
        let i = path[0];
        assert(0 <= 0 < path.len() - 1);
        let m = choose|m: int| 0 <= m < plan[path[0]].depends_on@.len() && plan[path[0]].depends_on@[m] == path[1];
        assert(deps_succeeded(plan, st, i));
        assert(st[plan[i].depends_on@[m] as int] == OpStatus::Succeeded);
        assert(plan[i].depends_on@[m] < i);
        let rest = path.drop_first();
        assert forall|k: int| 0 <= k < rest.len() - 1 implies {
            &&& 0 <= #[trigger] rest[k] < plan.len()
            &&& exists|m: int| 0 <= m < plan[rest[k]].depends_on@.len() && plan[rest[k]].depends_on@[m] == rest[k + 1]
        } by {
            assert(rest[k] == path[k + 1]);
            assert(rest[k + 1] == path[k + 2]);
            assert(0 <= path[k + 1] < plan.len());
        }
        lemma_failure_isolation(plan, st, rest);
        assert(rest.last() == path.last());
    }
}

/// Whether the table of `plan[i]` exists before it runs: in the target
/// already, or made by an earlier CreateTable of the plan.
pub open spec fn table_available(plan: Seq<Operation>, existing: Seq<Seq<char>>, i: int) -> bool {
    existing.contains(plan[i].table@) || exists|j: int| 0 <= j < i && #[trigger] plan[j].kind == OperationKind::CreateTable
        && plan[j].table@ == plan[i].table@
}

/// Whether `plan[i]` passes validation: a table is created only where it is
/// missing, and every other operation refers to a table that exists.
pub open spec fn operation_valid(plan: Seq<Operation>, existing: Seq<Seq<char>>, i: int) -> bool {
    if plan[i].kind == OperationKind::CreateTable {
        !existing.contains(plan[i].table@)
    } else {
        table_available(plan, existing, i)
    }
}

/// The synthetic outcome that a dry run records for `plan[i]`.
pub open spec fn dry_outcome(plan: Seq<Operation>, existing: Seq<Seq<char>>, i: int) -> Outcome {
    if operation_valid(plan, existing, i) {
        Outcome::Success { rows: plan[i].row_count }
    } else {
        Outcome::Failure(FailureClass::Permanent)
    }
}

fn contains_text(v: &Vec<String>, s: &String) -> (r: bool)
    ensures
        r == names(v@).contains(s@),
{
    let mut k: usize = 0;
    while k < v.len()
        invariant
            k <= v@.len(),
            forall|j: int| 0 <= j < k ==> #[trigger] v@[j]@ != s@,
        decreases v@.len() - k,
    {
        if v[k] == *s {
            assert(names(v@)[k as int] == s@);
            return true;
        }
        k = k + 1;
    }
    assert forall|j: int| 0 <= j < names(v@).len() implies #[trigger] names(v@)[j] != s@ by {
        assert(v@[j]@ != s@);
    }
    false
}

fn created_before(plan: &Vec<Operation>, i: usize) -> (r: bool)
    requires
        i < plan@.len(),
    ensures
        r == exists|j: int| 0 <= j < i && #[trigger] plan@[j].kind == OperationKind::CreateTable
            && plan@[j].table@ == plan@[i as int].table@,
{
    let mut j: usize = 0;
    while j < i
        invariant
            i < plan@.len(),
            j <= i,
            forall|k: int| 0 <= k < j ==> !(#[trigger] plan@[k].kind == OperationKind::CreateTable
                && plan@[k].table@ == plan@[i as int].table@),
        decreases i - j,
    {
        if plan[j].kind == OperationKind::CreateTable && plan[j].table == plan[i].table {
            return true;
        }
        j = j + 1;
    }
    false
}

/// Validates every operation against the target's existing tables without
/// touching the target, and records a synthetic outcome for each: success
/// with its row count where it is valid, a permanent failure where not.
pub fn dry_run(plan: &Vec<Operation>, existing: &Vec<String>) -> (r: Vec<Outcome>)
    ensures
        r@.len() == plan@.len(),
        forall|i: int| 0 <= i < plan@.len() ==> #[trigger] r@[i] == dry_outcome(plan@, names(existing@), i),
{
    let mut r: Vec<Outcome> = Vec::new();
    let mut i: usize = 0;
    while i < plan.len()
        invariant
            i <= plan@.len(),
            r@.len() == i,
            forall|k: int| 0 <= k < i ==> #[trigger] r@[k] == dry_outcome(plan@, names(existing@), k),
        decreases plan@.len() - i,
    {
        let present = contains_text(existing, &plan[i].table);
        let valid = if plan[i].kind == OperationKind::CreateTable {
            !present
        } else {
            present || created_before(plan, i)
        };
        if valid {
            r.push(Outcome::Success { rows: plan[i].row_count });
        } else {
            r.push(Outcome::Failure(FailureClass::Permanent));
        }
        i = i + 1;
    }
    r
}

/// For a plan whose operations are all valid, a dry run reports success for
/// every operation, with the rows it would move.
pub proof fn lemma_dry_run_valid_plan(plan: Seq<Operation>, existing: Seq<Seq<char>>)
    requires
        forall|i: int| 0 <= i < plan.len() ==> #[trigger] operation_valid(plan, existing, i),
    ensures
        forall|i: int| 0 <= i < plan.len() ==> #[trigger] dry_outcome(plan, existing, i)
            == (Outcome::Success { rows: plan[i].row_count }),
{
    assert forall|i: int| 0 <= i < plan.len() implies #[trigger] dry_outcome(plan, existing, i)
        == (Outcome::Success { rows: plan[i].row_count }) by {
        assert(operation_valid(plan, existing, i));
    }
}

/// The class of a failure from its five-character SQLSTATE: class `08`
/// (connection exception) is Fatal; `40001` (serialization failure or
/// deadlock), `HYT00` and `HYT01` (timeouts) are Transient; any other is
/// Permanent.
pub open spec fn sqlstate_class(s: Seq<char>) -> FailureClass {
    if s.len() == 5 && s[0] == '0' && s[1] == '8' {
        FailureClass::Fatal
    } else if s == seq!['4', '0', '0', '0', '1'] || s == seq!['H', 'Y', 'T', '0', '0'] || s == seq!['H', 'Y', 'T', '0', '1'] {
        FailureClass::Transient
    } else {
        FailureClass::Permanent
    }
}

/// Classifies a failed statement by its SQLSTATE.
pub fn failure_class(sqlstate: &str) -> (r: FailureClass)
    ensures
        r == sqlstate_class(sqlstate@),
{
    if sqlstate.unicode_len() != 5 {
        assert(!(sqlstate@ =~= seq!['4', '0', '0', '0', '1']));
        assert(!(sqlstate@ =~= seq!['H', 'Y', 'T', '0', '0']));
        assert(!(sqlstate@ =~= seq!['H', 'Y', 'T', '0', '1']));
        return FailureClass::Permanent;
    }
    let c0 = sqlstate.get_char(0);
    let c1 = sqlstate.get_char(1);
    let c2 = sqlstate.get_char(2);
    let c3 = sqlstate.get_char(3);
    let c4 = sqlstate.get_char(4);
    if c0 == '0' && c1 == '8' {
        return FailureClass::Fatal;
    }
    let deadlock = c0 == '4' && c1 == '0' && c2 == '0' && c3 == '0' && c4 == '1';
    let timeout = c0 == 'H' && c1 == 'Y' && c2 == 'T' && c3 == '0' && (c4 == '0' || c4 == '1');
    proof {
        let s = sqlstate@;
        assert(deadlock <==> s =~= seq!['4', '0', '0', '0', '1']);
        assert((timeout && c4 == '0') <==> s =~= seq!['H', 'Y', 'T', '0', '0']);
        assert((timeout && c4 == '1') <==> s =~= seq!['H', 'Y', 'T', '0', '1']);
    }
    if deadlock || timeout {
        FailureClass::Transient
    } else {
        FailureClass::Permanent
    }
}

} // verus!
