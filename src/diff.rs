use vstd::prelude::*;
use vstd::multiset::Multiset;
use crate::utils::push_char;
use crate::metadata::{
    column_models, index_models, names, same_opt_text, same_strings, copy_strings, snapshot, snapshot_wf, ColumnMetadata,
    columns_unique, ColumnModel, IndexMetadata, IndexModel, TableMetadata, TableModel,
};

verus! {

/// What kind of difference a discrepancy reports.
#[derive(Debug, Clone, Copy, PartialEq, Eq, Structural)]
pub enum DiscrepancyKind {
    MissingTable,
    MissingColumn,
    TypeMismatch,
    NullabilityMismatch,
    DefaultValueMismatch,
    IndexMismatch,
}

/// How much a discrepancy endangers the migration.
#[derive(Debug, Clone, Copy, PartialEq, Eq, Structural)]
pub enum Severity {
    Fatal,
    Warning,
    Info,
}

/// The value of the compared attribute on one side.
#[derive(Debug, Clone)]
pub enum AttrValue {
    Absent,
    Type { data_type: String, length: Option<i32> },
    Nullable(bool),
    Default(Option<String>),
    Index { columns: Vec<String>, is_unique: bool },
}

/// One detected difference between an expected and an actual snapshot.
/// `item` names the column or index, and is empty for a missing table.
#[derive(Debug, Clone)]
pub struct Discrepancy {
    pub table: String,
    pub item: String,
    pub kind: DiscrepancyKind,
    pub severity: Severity,
    pub expected: AttrValue,
    pub actual: AttrValue,
}

pub enum AttrModel {
    Absent,
    Type(Seq<char>, Option<i32>),
    Nullable(bool),
    Default(Option<Seq<char>>),
    Index(Seq<Seq<char>>, bool),
}

pub struct DiscrepancyModel {
    pub table: Seq<char>,
    pub item: Seq<char>,
    pub kind: DiscrepancyKind,
    pub severity: Severity,
    pub expected: AttrModel,
    pub actual: AttrModel,
}

impl View for AttrValue {
    type V = AttrModel;

    open spec fn view(&self) -> AttrModel {
        match self {
            AttrValue::Absent => AttrModel::Absent,
            AttrValue::Type { data_type, length } => AttrModel::Type(data_type@, *length),
            AttrValue::Nullable(b) => AttrModel::Nullable(*b),
            AttrValue::Default(d) => AttrModel::Default(crate::metadata::opt_text(*d)),
            AttrValue::Index { columns, is_unique } => AttrModel::Index(names(columns@), *is_unique),
        }
    }
}

impl View for Discrepancy {
    type V = DiscrepancyModel;

    open spec fn view(&self) -> DiscrepancyModel {
        DiscrepancyModel {
            table: self.table@,
            item: self.item@,
            kind: self.kind,
            severity: self.severity,
            expected: self.expected@,
            actual: self.actual@,
        }
    }
}

/// The models of a list of discrepancies.
pub open spec fn issues(v: Seq<Discrepancy>) -> Seq<DiscrepancyModel> {
    v.map_values(|d: Discrepancy| d@)
}

/// Whether `cols[i]` is the first column named `name`.
pub open spec fn first_column(cols: Seq<ColumnModel>, name: Seq<char>, i: int) -> bool {
    0 <= i < cols.len() && cols[i].name == name && forall|j: int| 0 <= j < i ==> #[trigger] cols[j].name != name
}

/// The first column of `cols` named `name`.
pub open spec fn lookup_column(cols: Seq<ColumnModel>, name: Seq<char>) -> Option<ColumnModel> {
    if exists|i: int| first_column(cols, name, i) {
        Some(cols[choose|i: int| first_column(cols, name, i)])
    } else {
        None
    }
}

/// Whether `tables[i]` is the first table named `name`.
pub open spec fn first_table(tables: Seq<TableModel>, name: Seq<char>, i: int) -> bool {
    0 <= i < tables.len() && tables[i].name == name && forall|j: int| 0 <= j < i ==> #[trigger] tables[j].name != name
}

/// The first table of `tables` named `name`.
pub open spec fn lookup_table(tables: Seq<TableModel>, name: Seq<char>) -> Option<TableModel> {
    if exists|i: int| first_table(tables, name, i) {
        Some(tables[choose|i: int| first_table(tables, name, i)])
    } else {
        None
    }
}

/// Whether `idx` has an index with the same columns and uniqueness.
pub open spec fn has_index(idx: Seq<IndexModel>, i: IndexModel) -> bool {
    exists|k: int| 0 <= k < idx.len() && #[trigger] idx[k].columns == i.columns && idx[k].is_unique == i.is_unique
}

/// Whether the actual column type is narrower than the expected one.
pub open spec fn narrowing(e: ColumnModel, a: ColumnModel) -> bool {
    e.data_type != a.data_type || match (e.length, a.length) {
        (Some(x), Some(y)) => y < x,
        (None, Some(_)) => true,
        _ => false,
    }
}

pub open spec fn issue(table: Seq<char>, item: Seq<char>, kind: DiscrepancyKind, severity: Severity, expected: AttrModel, actual: AttrModel) -> DiscrepancyModel {
    DiscrepancyModel { table, item, kind, severity, expected, actual }
}

pub open spec fn only_if(c: bool, d: DiscrepancyModel) -> Seq<DiscrepancyModel> {
    if c { seq![d] } else { Seq::empty() }
}

/// The issues of expected column `e` of `table` against its actual counterpart.
pub open spec fn column_issues(table: Seq<char>, e: ColumnModel, a: Option<ColumnModel>) -> Seq<DiscrepancyModel> {
    match a {
        None => seq![issue(table, e.name, DiscrepancyKind::MissingColumn, Severity::Fatal, AttrModel::Absent, AttrModel::Absent)],
        Some(a) =>
            only_if(e.data_type != a.data_type || e.length != a.length, issue(table, e.name, DiscrepancyKind::TypeMismatch,
                if narrowing(e, a) { Severity::Fatal } else { Severity::Warning },
                AttrModel::Type(e.data_type, e.length), AttrModel::Type(a.data_type, a.length)))
            + only_if(e.nullable != a.nullable, issue(table, e.name, DiscrepancyKind::NullabilityMismatch, Severity::Warning,
                AttrModel::Nullable(e.nullable), AttrModel::Nullable(a.nullable)))
            + only_if(e.default_value != a.default_value, issue(table, e.name, DiscrepancyKind::DefaultValueMismatch, Severity::Warning,
                AttrModel::Default(e.default_value), AttrModel::Default(a.default_value))),
    }
}

pub open spec fn columns_issues(table: Seq<char>, es: Seq<ColumnModel>, acts: Seq<ColumnModel>) -> Seq<DiscrepancyModel> {
    es.map_values(|e: ColumnModel| column_issues(table, e, lookup_column(acts, e.name))).flatten()
}

/// An index of `mine` that `theirs` lacks; `expected_side` says whether `mine` is the expected snapshot.
pub open spec fn index_issue(table: Seq<char>, i: IndexModel, theirs: Seq<IndexModel>, expected_side: bool) -> Seq<DiscrepancyModel> {
    let present = AttrModel::Index(i.columns, i.is_unique);
    only_if(!has_index(theirs, i), issue(table, i.name, DiscrepancyKind::IndexMismatch, Severity::Info,
        if expected_side { present } else { AttrModel::Absent },
        if expected_side { AttrModel::Absent } else { present }))
}

pub open spec fn unmatched_indexes(table: Seq<char>, mine: Seq<IndexModel>, theirs: Seq<IndexModel>, expected_side: bool) -> Seq<DiscrepancyModel> {
    mine.map_values(|i: IndexModel| index_issue(table, i, theirs, expected_side)).flatten()
}

/// Indexes compared as sets of (columns, uniqueness): those missing, then those extra.
pub open spec fn index_issues(table: Seq<char>, es: Seq<IndexModel>, acts: Seq<IndexModel>) -> Seq<DiscrepancyModel> {
    unmatched_indexes(table, es, acts, true) + unmatched_indexes(table, acts, es, false)
}

pub open spec fn table_issues(e: TableModel, acts: Seq<TableModel>) -> Seq<DiscrepancyModel> {
    match lookup_table(acts, e.name) {
        None => seq![issue(e.name, Seq::empty(), DiscrepancyKind::MissingTable, Severity::Fatal, AttrModel::Absent, AttrModel::Absent)],
        Some(a) => columns_issues(e.name, e.columns, a.columns) + index_issues(e.name, e.indexes, a.indexes),
    }
}

/// All discrepancies of `actual` against `expected`, table by table in the
/// order of `expected`.
pub open spec fn schema_diff(expected: Seq<TableModel>, actual: Seq<TableModel>) -> Seq<DiscrepancyModel> {
    expected.map_values(|e: TableModel| table_issues(e, actual)).flatten()
}

proof fn lemma_first_column_unique(cols: Seq<ColumnModel>, name: Seq<char>, i: int)
    requires
        first_column(cols, name, i),
    ensures
        lookup_column(cols, name) == Some(cols[i]),
{
    let k = choose|k: int| first_column(cols, name, k);
    assert(first_column(cols, name, k));
    if k < i {
        assert(cols[k].name != name);
    } else if i < k {
        assert(cols[i].name != name);
    }
}

proof fn lemma_first_table_unique(tables: Seq<TableModel>, name: Seq<char>, i: int)
    requires
        first_table(tables, name, i),
    ensures
        lookup_table(tables, name) == Some(tables[i]),
{
    let k = choose|k: int| first_table(tables, name, k);
    assert(first_table(tables, name, k));
    if k < i {
        assert(tables[k].name != name);
    } else if i < k {
        assert(tables[i].name != name);
    }
}

fn find_column(cols: &Vec<ColumnMetadata>, name: &String) -> (r: Option<usize>)
    ensures
        match r {
            Some(i) => i < cols@.len() && lookup_column(column_models(cols@), name@) == Some(cols@[i as int]@),
            None => lookup_column(column_models(cols@), name@) is None,
        },
{
    let ghost m = column_models(cols@);
    let mut i: usize = 0;
    while i < cols.len()
        invariant
            i <= cols@.len(),
            m == column_models(cols@),
            forall|j: int| 0 <= j < i ==> #[trigger] m[j].name != name@,
        decreases cols@.len() - i,
    {
        if cols[i].name == *name {
            proof { lemma_first_column_unique(m, name@, i as int); }
            return Some(i);
        }
        i = i + 1;
    }
    None
}

fn find_table(tables: &[TableMetadata], name: &String) -> (r: Option<usize>)
    ensures
        match r {
            Some(i) => i < tables@.len() && lookup_table(snapshot(tables@), name@) == Some(tables@[i as int]@),
            None => lookup_table(snapshot(tables@), name@) is None,
        },
{
    let ghost m = snapshot(tables@);
    let mut i: usize = 0;
    while i < tables.len()
        invariant
            i <= tables@.len(),
            m == snapshot(tables@),
            forall|j: int| 0 <= j < i ==> #[trigger] m[j].name != name@,
        decreases tables@.len() - i,
    {
        if tables[i].name == *name {
            proof { lemma_first_table_unique(m, name@, i as int); }
            return Some(i);
        }
        i = i + 1;
    }
    None
}

fn is_narrowing(e: &ColumnMetadata, a: &ColumnMetadata) -> (r: bool)
    ensures
        r == narrowing(e@, a@),
{
    if e.data_type != a.data_type {
        return true;
    }
    match (e.length, a.length) {
        (Some(x), Some(y)) => y < x,
        (None, Some(_)) => true,
        _ => false,
    }
}

fn same_length(a: Option<i32>, b: Option<i32>) -> (r: bool)
    ensures
        r == (a == b),
{
    match (a, b) {
        (Some(x), Some(y)) => x == y,
        (None, None) => true,
        _ => false,
    }
}

fn push_issue(out: &mut Vec<Discrepancy>, d: Discrepancy)
    ensures
        issues(final(out)@) == issues(old(out)@).push(d@),
{
    out.push(d);
    assert(issues(out@) =~= issues(old(out)@).push(d@));
}

/// Appends the issues of expected column `e` against actual column `a`.
fn compare_column(table: &String, e: &ColumnMetadata, a: &ColumnMetadata, out: &mut Vec<Discrepancy>)
    ensures
        issues(final(out)@) == issues(old(out)@) + column_issues(table@, e@, Some(a@)),
{
    let ghost start = issues(out@);
    if e.data_type != a.data_type || !same_length(e.length, a.length) {
        let severity = if is_narrowing(e, a) { Severity::Fatal } else { Severity::Warning };
        push_issue(out, Discrepancy {
            table: table.clone(),
            item: e.name.clone(),
            kind: DiscrepancyKind::TypeMismatch,
            severity,
            expected: AttrValue::Type { data_type: e.data_type.clone(), length: e.length },
            actual: AttrValue::Type { data_type: a.data_type.clone(), length: a.length },
        });
    }
    let ghost mid = issues(out@);
    if e.nullable != a.nullable {
        push_issue(out, Discrepancy {
            table: table.clone(),
            item: e.name.clone(),
            kind: DiscrepancyKind::NullabilityMismatch,
            severity: Severity::Warning,
            expected: AttrValue::Nullable(e.nullable),
            actual: AttrValue::Nullable(a.nullable),
        });
    }
    let ghost mid2 = issues(out@);
    if !same_opt_text(&e.default_value, &a.default_value) {
        let ed = match &e.default_value { Some(s) => Some(s.clone()), None => None };
        let ad = match &a.default_value { Some(s) => Some(s.clone()), None => None };
        push_issue(out, Discrepancy {
            table: table.clone(),
            item: e.name.clone(),
            kind: DiscrepancyKind::DefaultValueMismatch,
            severity: Severity::Warning,
            expected: AttrValue::Default(ed),
            actual: AttrValue::Default(ad),
        });
    }
    assert(issues(out@) =~= start + column_issues(table@, e@, Some(a@)));
}

/// Appends the issues of every expected column of a table present on both sides.
fn compare_columns(table: &String, es: &Vec<ColumnMetadata>, acts: &Vec<ColumnMetadata>, out: &mut Vec<Discrepancy>)
    ensures
        issues(final(out)@) == issues(old(out)@) + columns_issues(table@, column_models(es@), column_models(acts@)),
{
    let ghost start = issues(out@);
    let ghost am = column_models(acts@);
    let ghost f = |e: ColumnModel| column_issues(table@, e, lookup_column(am, e.name));
    let mut k: usize = 0;
    while k < es.len()
        invariant
            k <= es@.len(),
            am == column_models(acts@),
            f == (|e: ColumnModel| column_issues(table@, e, lookup_column(am, e.name))),
            issues(out@) == start + column_models(es@.subrange(0, k as int)).map_values(f).flatten(),
        decreases es@.len() - k,
    {
        let e = &es[k];
        let ghost before = issues(out@);
        match find_column(acts, &e.name) {
            Some(j) => {
                compare_column(table, e, &acts[j], out);
            },
            None => {
                push_issue(out, Discrepancy {
                    table: table.clone(),
                    item: e.name.clone(),
                    kind: DiscrepancyKind::MissingColumn,
                    severity: Severity::Fatal,
                    expected: AttrValue::Absent,
                    actual: AttrValue::Absent,
                });
                assert(issues(out@) =~= before + f(e@));
            },
        }
        proof {
            let prev = column_models(es@.subrange(0, k as int)).map_values(f);
            assert(column_models(es@.subrange(0, k + 1)).map_values(f) =~= prev.push(f(es@[k as int]@)));
            prev.lemma_flatten_push(f(es@[k as int]@));
        }
        k = k + 1;
        assert(issues(out@) =~= start + column_models(es@.subrange(0, k as int)).map_values(f).flatten());
    }
    assert(es@.subrange(0, k as int) =~= es@);
}

fn contains_index(idx: &Vec<IndexMetadata>, i: &IndexMetadata) -> (r: bool)
    ensures
        r == has_index(index_models(idx@), i@),
{
    let ghost m = index_models(idx@);
    let mut k: usize = 0;
    while k < idx.len()
        invariant
            k <= idx@.len(),
            m == index_models(idx@),
            forall|j: int| 0 <= j < k ==> !(#[trigger] m[j].columns == i@.columns && m[j].is_unique == i@.is_unique),
        decreases idx@.len() - k,
    {
        if same_strings(&idx[k].columns, &i.columns) && idx[k].is_unique == i.is_unique {
            assert(m[k as int].columns == i@.columns);
            return true;
        }
        k = k + 1;
    }
    false
}

/// Appends an issue for each index of `mine` that `theirs` lacks.
fn push_unmatched(table: &String, mine: &Vec<IndexMetadata>, theirs: &Vec<IndexMetadata>, expected_side: bool, out: &mut Vec<Discrepancy>)
    ensures
        issues(final(out)@) == issues(old(out)@) + unmatched_indexes(table@, index_models(mine@), index_models(theirs@), expected_side),
{
    let ghost start = issues(out@);
    let ghost tm = index_models(theirs@);
    let ghost f = |i: IndexModel| index_issue(table@, i, tm, expected_side);
    let mut k: usize = 0;
    while k < mine.len()
        invariant
            k <= mine@.len(),
            tm == index_models(theirs@),
            f == (|i: IndexModel| index_issue(table@, i, tm, expected_side)),
            issues(out@) == start + index_models(mine@.subrange(0, k as int)).map_values(f).flatten(),
        decreases mine@.len() - k,
    {
        let i = &mine[k];
        let ghost before = issues(out@);
        if !contains_index(theirs, i) {
            let present = AttrValue::Index { columns: copy_strings(&i.columns), is_unique: i.is_unique };
            let (expected, actual) = if expected_side { (present, AttrValue::Absent) } else { (AttrValue::Absent, present) };
            push_issue(out, Discrepancy {
                table: table.clone(),
                item: i.name.clone(),
                kind: DiscrepancyKind::IndexMismatch,
                severity: Severity::Info,
                expected,
                actual,
            });
        }
        assert(issues(out@) =~= before + f(i@));
        proof {
            let prev = index_models(mine@.subrange(0, k as int)).map_values(f);
            assert(index_models(mine@.subrange(0, k + 1)).map_values(f) =~= prev.push(f(mine@[k as int]@)));
            prev.lemma_flatten_push(f(mine@[k as int]@));
        }
        k = k + 1;
        assert(issues(out@) =~= start + index_models(mine@.subrange(0, k as int)).map_values(f).flatten());
    }
    assert(mine@.subrange(0, k as int) =~= mine@);
}

/// Compares two schema snapshots: every table of `expected` is looked up by
/// name in `actual`; a missing table is one Fatal issue, a present one is
/// compared column by column and then index by index.
pub fn diff_schemas(expected: &[TableMetadata], actual: &[TableMetadata]) -> (r: Vec<Discrepancy>)
    ensures
        issues(r@) == schema_diff(snapshot(expected@), snapshot(actual@)),
{
    let ghost am = snapshot(actual@);
    let ghost f = |e: TableModel| table_issues(e, am);
    let mut out: Vec<Discrepancy> = Vec::new();
    let mut k: usize = 0;
    while k < expected.len()
        invariant
            k <= expected@.len(),
            am == snapshot(actual@),
            f == (|e: TableModel| table_issues(e, am)),
            issues(out@) == snapshot(expected@.subrange(0, k as int)).map_values(f).flatten(),
        decreases expected@.len() - k,
    {
        let e = &expected[k];
        let ghost before = issues(out@);
        match find_table(actual, &e.name) {
            Some(j) => {
                let a = &actual[j];
                compare_columns(&e.name, &e.columns, &a.columns, &mut out);
                push_unmatched(&e.name, &e.indexes, &a.indexes, true, &mut out);
                push_unmatched(&e.name, &a.indexes, &e.indexes, false, &mut out);
            },
            None => {
                push_issue(&mut out, Discrepancy {
                    table: e.name.clone(),
                    item: String::new(),
                    kind: DiscrepancyKind::MissingTable,
                    severity: Severity::Fatal,
                    expected: AttrValue::Absent,
                    actual: AttrValue::Absent,
                });
            },
        }
        assert(issues(out@) =~= before + f(e@));
        proof {
            let prev = snapshot(expected@.subrange(0, k as int)).map_values(f);
            assert(snapshot(expected@.subrange(0, k + 1)).map_values(f) =~= prev.push(f(expected@[k as int]@)));
            prev.lemma_flatten_push(f(expected@[k as int]@));
        }
        k = k + 1;
        assert(issues(out@) =~= snapshot(expected@.subrange(0, k as int)).map_values(f).flatten());
    }
    assert(expected@.subrange(0, k as int) =~= expected@);
    out
}

/// The kinds that speak of one column.
pub open spec fn column_kind(k: DiscrepancyKind) -> bool {
    k == DiscrepancyKind::MissingColumn || k == DiscrepancyKind::TypeMismatch
        || k == DiscrepancyKind::NullabilityMismatch || k == DiscrepancyKind::DefaultValueMismatch
}

/// The kinds that compare an attribute present on both sides.
pub open spec fn mirrored_kind(k: DiscrepancyKind) -> bool {
    k == DiscrepancyKind::TypeMismatch || k == DiscrepancyKind::NullabilityMismatch
        || k == DiscrepancyKind::DefaultValueMismatch || k == DiscrepancyKind::IndexMismatch
}

proof fn lemma_concat_contains<A>(x: Seq<A>, y: Seq<A>, e: A)
    ensures
        (x + y).contains(e) <==> x.contains(e) || y.contains(e),
{
    if x.contains(e) {
        let i = choose|i: int| 0 <= i < x.len() && x[i] == e;
        assert((x + y)[i] == e);
    }
    if y.contains(e) {
        let i = choose|i: int| 0 <= i < y.len() && y[i] == e;
        assert((x + y)[x.len() + i] == e);
    }
    if (x + y).contains(e) {
        let i = choose|i: int| 0 <= i < (x + y).len() && (x + y)[i] == e;
        if i < x.len() {
            assert(x[i] == e);
        } else {
            assert(y[i - x.len()] == e);
        }
    }
}

proof fn lemma_flatten_contains<A>(s: Seq<Seq<A>>, e: A)
    ensures
        s.flatten().contains(e) <==> exists|i: int| 0 <= i < s.len() && #[trigger] s[i].contains(e),
    decreases s.len(),
{
    if s.len() > 0 {
        lemma_flatten_contains(s.drop_first(), e);
        lemma_concat_contains(s.first(), s.drop_first().flatten(), e);
        if exists|i: int| 0 <= i < s.len() && #[trigger] s[i].contains(e) {
            let i = choose|i: int| 0 <= i < s.len() && #[trigger] s[i].contains(e);
            if i > 0 {
                assert(s.drop_first()[i - 1].contains(e));
            }
        }
        if s.drop_first().flatten().contains(e) {
            let i = choose|i: int| 0 <= i < s.drop_first().len() && #[trigger] s.drop_first()[i].contains(e);
            assert(s[i + 1].contains(e));
        }
    }
}

proof fn lemma_only_if_contains(c: bool, x: DiscrepancyModel, e: DiscrepancyModel)
    ensures
        only_if(c, x).contains(e) <==> c && e == x,
{
    if c {
        assert(only_if(c, x)[0] == x);
    }
}

/// Every issue of one expected column names that column, with a column kind.
proof fn lemma_column_issue_shape(t: Seq<char>, e: ColumnModel, a: Option<ColumnModel>, d: DiscrepancyModel)
    requires
        column_issues(t, e, a).contains(d),
    ensures
        d.table == t,
        d.item == e.name,
        column_kind(d.kind),
        d.kind == DiscrepancyKind::MissingColumn <==> a is None,
{
    match a {
        None => {},
        Some(a) => {
            let x = issue(t, e.name, DiscrepancyKind::TypeMismatch,
                if narrowing(e, a) { Severity::Fatal } else { Severity::Warning },
                AttrModel::Type(e.data_type, e.length), AttrModel::Type(a.data_type, a.length));
            let y = issue(t, e.name, DiscrepancyKind::NullabilityMismatch, Severity::Warning,
                AttrModel::Nullable(e.nullable), AttrModel::Nullable(a.nullable));
            let z = issue(t, e.name, DiscrepancyKind::DefaultValueMismatch, Severity::Warning,
                AttrModel::Default(e.default_value), AttrModel::Default(a.default_value));
            let w1 = only_if(e.data_type != a.data_type || e.length != a.length, x);
            let w2 = only_if(e.nullable != a.nullable, y);
            let w3 = only_if(e.default_value != a.default_value, z);
            lemma_concat_contains(w1 + w2, w3, d);
            lemma_concat_contains(w1, w2, d);
            lemma_only_if_contains(e.data_type != a.data_type || e.length != a.length, x, d);
            lemma_only_if_contains(e.nullable != a.nullable, y, d);
            lemma_only_if_contains(e.default_value != a.default_value, z, d);
        },
    }
}

/// An issue of a column present on both sides reappears, swapped, when the
/// two sides trade places.
proof fn lemma_column_issue_mirror(t: Seq<char>, e: ColumnModel, a: ColumnModel, d: DiscrepancyModel)
    requires
        column_issues(t, e, Some(a)).contains(d),
        a.name == e.name,
    ensures
        exists|d2: DiscrepancyModel| #[trigger] column_issues(t, a, Some(e)).contains(d2) && d2.table == d.table
            && d2.item == d.item && d2.kind == d.kind && d2.expected == d.actual && d2.actual == d.expected,
{
    let x = issue(t, e.name, DiscrepancyKind::TypeMismatch,
        if narrowing(e, a) { Severity::Fatal } else { Severity::Warning },
        AttrModel::Type(e.data_type, e.length), AttrModel::Type(a.data_type, a.length));
    let y = issue(t, e.name, DiscrepancyKind::NullabilityMismatch, Severity::Warning,
        AttrModel::Nullable(e.nullable), AttrModel::Nullable(a.nullable));
    let z = issue(t, e.name, DiscrepancyKind::DefaultValueMismatch, Severity::Warning,
        AttrModel::Default(e.default_value), AttrModel::Default(a.default_value));
    let w1 = only_if(e.data_type != a.data_type || e.length != a.length, x);
    let w2 = only_if(e.nullable != a.nullable, y);
    let w3 = only_if(e.default_value != a.default_value, z);
    lemma_concat_contains(w1 + w2, w3, d);
    lemma_concat_contains(w1, w2, d);
    lemma_only_if_contains(e.data_type != a.data_type || e.length != a.length, x, d);
    lemma_only_if_contains(e.nullable != a.nullable, y, d);
    lemma_only_if_contains(e.default_value != a.default_value, z, d);
    let x2 = issue(t, a.name, DiscrepancyKind::TypeMismatch,
        if narrowing(a, e) { Severity::Fatal } else { Severity::Warning },
        AttrModel::Type(a.data_type, a.length), AttrModel::Type(e.data_type, e.length));
    let y2 = issue(t, a.name, DiscrepancyKind::NullabilityMismatch, Severity::Warning,
        AttrModel::Nullable(a.nullable), AttrModel::Nullable(e.nullable));
    let z2 = issue(t, a.name, DiscrepancyKind::DefaultValueMismatch, Severity::Warning,
        AttrModel::Default(a.default_value), AttrModel::Default(e.default_value));
    let v1 = only_if(a.data_type != e.data_type || a.length != e.length, x2);
    let v2 = only_if(a.nullable != e.nullable, y2);
    let v3 = only_if(a.default_value != e.default_value, z2);
    assert(column_issues(t, a, Some(e)) == v1 + v2 + v3);
    if d == x {
        lemma_only_if_contains(a.data_type != e.data_type || a.length != e.length, x2, x2);
        lemma_concat_contains(v1, v2, x2);
        lemma_concat_contains(v1 + v2, v3, x2);
    } else if d == y {
        lemma_only_if_contains(a.nullable != e.nullable, y2, y2);
        lemma_concat_contains(v1, v2, y2);
        lemma_concat_contains(v1 + v2, v3, y2);
    } else {
        lemma_only_if_contains(a.default_value != e.default_value, z2, z2);
        lemma_concat_contains(v1, v2, z2);
        lemma_concat_contains(v1 + v2, v3, z2);
    }
}

proof fn lemma_map_flatten_contains<A>(s: Seq<A>, f: spec_fn(A) -> Seq<DiscrepancyModel>, d: DiscrepancyModel)
    ensures
        s.map_values(f).flatten().contains(d) <==> exists|i: int| 0 <= i < s.len() && #[trigger] f(s[i]).contains(d),
{
    lemma_flatten_contains(s.map_values(f), d);
    if exists|i: int| 0 <= i < s.len() && #[trigger] f(s[i]).contains(d) {
        let i = choose|i: int| 0 <= i < s.len() && #[trigger] f(s[i]).contains(d);
        assert(s.map_values(f)[i].contains(d));
    }
    if s.map_values(f).flatten().contains(d) {
        let i = choose|i: int| 0 <= i < s.map_values(f).len() && #[trigger] s.map_values(f)[i].contains(d);
        assert(f(s[i]).contains(d));
    }
}

proof fn lemma_unmatched_contains(t: Seq<char>, mine: Seq<IndexModel>, theirs: Seq<IndexModel>, side: bool, d: DiscrepancyModel)
    ensures
        unmatched_indexes(t, mine, theirs, side).contains(d) <==> exists|k: int| 0 <= k < mine.len()
            && #[trigger] index_issue(t, mine[k], theirs, side).contains(d),
{
    let f = |i: IndexModel| index_issue(t, i, theirs, side);
    lemma_map_flatten_contains(mine, f, d);
    assert(unmatched_indexes(t, mine, theirs, side) == mine.map_values(f).flatten());
    if exists|k: int| 0 <= k < mine.len() && #[trigger] index_issue(t, mine[k], theirs, side).contains(d) {
        let k = choose|k: int| 0 <= k < mine.len() && #[trigger] index_issue(t, mine[k], theirs, side).contains(d);
        assert(f(mine[k]).contains(d));
    }
    if unmatched_indexes(t, mine, theirs, side).contains(d) {
        let k = choose|k: int| 0 <= k < mine.len() && #[trigger] f(mine[k]).contains(d);
        assert(index_issue(t, mine[k], theirs, side).contains(d));
    }
}

proof fn lemma_columns_contains(t: Seq<char>, es: Seq<ColumnModel>, acts: Seq<ColumnModel>, d: DiscrepancyModel)
    ensures
        columns_issues(t, es, acts).contains(d) <==> exists|k: int| 0 <= k < es.len()
            && #[trigger] column_issues(t, es[k], lookup_column(acts, es[k].name)).contains(d),
{
    let f = |e: ColumnModel| column_issues(t, e, lookup_column(acts, e.name));
    lemma_map_flatten_contains(es, f, d);
    assert(columns_issues(t, es, acts) == es.map_values(f).flatten());
    if exists|k: int| 0 <= k < es.len() && #[trigger] column_issues(t, es[k], lookup_column(acts, es[k].name)).contains(d) {
        let k = choose|k: int| 0 <= k < es.len() && #[trigger] column_issues(t, es[k], lookup_column(acts, es[k].name)).contains(d);
        assert(f(es[k]).contains(d));
    }
    if columns_issues(t, es, acts).contains(d) {
        let k = choose|k: int| 0 <= k < es.len() && #[trigger] f(es[k]).contains(d);
        assert(column_issues(t, es[k], lookup_column(acts, es[k].name)).contains(d));
    }
}

proof fn lemma_diff_contains(a: Seq<TableModel>, b: Seq<TableModel>, d: DiscrepancyModel)
    ensures
        schema_diff(a, b).contains(d) <==> exists|i: int| 0 <= i < a.len() && #[trigger] table_issues(a[i], b).contains(d),
{
    let f = |e: TableModel| table_issues(e, b);
    lemma_map_flatten_contains(a, f, d);
    assert(schema_diff(a, b) == a.map_values(f).flatten());
    if exists|i: int| 0 <= i < a.len() && #[trigger] table_issues(a[i], b).contains(d) {
        let i = choose|i: int| 0 <= i < a.len() && #[trigger] table_issues(a[i], b).contains(d);
        assert(f(a[i]).contains(d));
    }
    if schema_diff(a, b).contains(d) {
        let i = choose|i: int| 0 <= i < a.len() && #[trigger] f(a[i]).contains(d);
        assert(table_issues(a[i], b).contains(d));
    }
}

/// The issues of one expected table all name it; column kinds come from its columns.
proof fn lemma_table_issue_shape(e: TableModel, acts: Seq<TableModel>, d: DiscrepancyModel)
    requires
        table_issues(e, acts).contains(d),
    ensures
        d.table == e.name,
        d.kind == DiscrepancyKind::MissingTable <==> lookup_table(acts, e.name) is None,
        column_kind(d.kind) ==> exists|k: int| 0 <= k < e.columns.len() && #[trigger] e.columns[k].name == d.item,
{
    match lookup_table(acts, e.name) {
        None => {},
        Some(a) => {
            let c = columns_issues(e.name, e.columns, a.columns);
            let u1 = unmatched_indexes(e.name, e.indexes, a.indexes, true);
            let u2 = unmatched_indexes(e.name, a.indexes, e.indexes, false);
            lemma_concat_contains(c, u1 + u2, d);
            lemma_concat_contains(u1, u2, d);
            lemma_unmatched_contains(e.name, e.indexes, a.indexes, true, d);
            lemma_unmatched_contains(e.name, a.indexes, e.indexes, false, d);
            lemma_columns_contains(e.name, e.columns, a.columns, d);
            if c.contains(d) {
                let k = choose|k: int| 0 <= k < e.columns.len()
                    && #[trigger] column_issues(e.name, e.columns[k], lookup_column(a.columns, e.columns[k].name)).contains(d);
                lemma_column_issue_shape(e.name, e.columns[k], lookup_column(a.columns, e.columns[k].name), d);
            } else if u1.contains(d) {
                let k = choose|k: int| 0 <= k < e.indexes.len() && #[trigger] index_issue(e.name, e.indexes[k], a.indexes, true).contains(d);
                lemma_only_if_contains(!has_index(a.indexes, e.indexes[k]), index_issue(e.name, e.indexes[k], a.indexes, true)[0], d);
            } else {
                let k = choose|k: int| 0 <= k < a.indexes.len() && #[trigger] index_issue(e.name, a.indexes[k], e.indexes, false).contains(d);
            }
        },
    }
}

proof fn lemma_lookup_table_wf(tables: Seq<TableModel>, j: int)
    requires
        snapshot_wf(tables),
        0 <= j < tables.len(),
    ensures
        lookup_table(tables, tables[j].name) == Some(tables[j]),
{
    assert forall|k: int| 0 <= k < j implies #[trigger] tables[k].name != tables[j].name by {
        if tables[k].name == tables[j].name {
            assert(k == j);
        }
    }
    lemma_first_table_unique(tables, tables[j].name, j);
}

proof fn lemma_lookup_column_wf(cols: Seq<ColumnModel>, j: int)
    requires
        columns_unique(cols),
        0 <= j < cols.len(),
    ensures
        lookup_column(cols, cols[j].name) == Some(cols[j]),
{
    assert forall|k: int| 0 <= k < j implies #[trigger] cols[k].name != cols[j].name by {
        if cols[k].name == cols[j].name {
            assert(k == j);
        }
    }
    lemma_first_column_unique(cols, cols[j].name, j);
}

/// Diffing two well-formed snapshots in both directions gives mirror images:
/// a table or column missing on one side is the subject of no issue in the
/// other direction, and an attribute that differs on a table or column present
/// on both sides (type, nullability, default, index) is reported in the other
/// direction too, with expected and actual swapped.
pub proof fn lemma_diff_mirror(a: Seq<TableModel>, b: Seq<TableModel>, d: DiscrepancyModel)
    requires
        snapshot_wf(a),
        snapshot_wf(b),
        schema_diff(a, b).contains(d),
    ensures
        d.kind == DiscrepancyKind::MissingTable ==> forall|d2: DiscrepancyModel|
            #[trigger] schema_diff(b, a).contains(d2) ==> d2.table != d.table,
        d.kind == DiscrepancyKind::MissingColumn ==> forall|d2: DiscrepancyModel|
            #[trigger] schema_diff(b, a).contains(d2) && d2.table == d.table && column_kind(d2.kind) ==> d2.item != d.item,
        mirrored_kind(d.kind) ==> exists|d2: DiscrepancyModel| #[trigger] schema_diff(b, a).contains(d2)
            && d2.table == d.table && d2.item == d.item && d2.kind == d.kind
            && d2.expected == d.actual && d2.actual == d.expected,
{
    lemma_diff_contains(a, b, d);
    let i = choose|i: int| 0 <= i < a.len() && #[trigger] table_issues(a[i], b).contains(d);
    let ta = a[i];
    lemma_table_issue_shape(ta, b, d);
    if d.kind == DiscrepancyKind::MissingTable {
        assert forall|d2: DiscrepancyModel| #[trigger] schema_diff(b, a).contains(d2) implies d2.table != d.table by {
            lemma_diff_contains(b, a, d2);
            let j = choose|j: int| 0 <= j < b.len() && #[trigger] table_issues(b[j], a).contains(d2);
            lemma_table_issue_shape(b[j], a, d2);
            if b[j].name == ta.name {
                lemma_lookup_table_wf(b, j);
            }
        }
        return;
    }
    let j = choose|j: int| first_table(b, ta.name, j);
    lemma_first_table_unique(b, ta.name, j);
    let tb = b[j];
    lemma_lookup_table_wf(a, i);
    let c = columns_issues(ta.name, ta.columns, tb.columns);
    let u1 = unmatched_indexes(ta.name, ta.indexes, tb.indexes, true);
    let u2 = unmatched_indexes(ta.name, tb.indexes, ta.indexes, false);
    lemma_concat_contains(c, u1 + u2, d);
    lemma_concat_contains(u1, u2, d);
    let rc = columns_issues(tb.name, tb.columns, ta.columns);
    let r1 = unmatched_indexes(tb.name, tb.indexes, ta.indexes, true);
    let r2 = unmatched_indexes(tb.name, ta.indexes, tb.indexes, false);
    assert(table_issues(tb, a) == rc + (r1 + r2));
    if c.contains(d) {
        lemma_columns_contains(ta.name, ta.columns, tb.columns, d);
        let k = choose|k: int| 0 <= k < ta.columns.len()
            && #[trigger] column_issues(ta.name, ta.columns[k], lookup_column(tb.columns, ta.columns[k].name)).contains(d);
        let ca = ta.columns[k];
        lemma_column_issue_shape(ta.name, ca, lookup_column(tb.columns, ca.name), d);
        if d.kind == DiscrepancyKind::MissingColumn {
            assert forall|d2: DiscrepancyModel| #[trigger] schema_diff(b, a).contains(d2) && d2.table == d.table
                && column_kind(d2.kind) implies d2.item != d.item by {
                lemma_diff_contains(b, a, d2);
                let j2 = choose|j2: int| 0 <= j2 < b.len() && #[trigger] table_issues(b[j2], a).contains(d2);
                lemma_table_issue_shape(b[j2], a, d2);
                assert(b[j2].name == b[j].name);
                assert(j2 == j);
                if d2.item == d.item {
                    let m = choose|m: int| 0 <= m < tb.columns.len() && #[trigger] tb.columns[m].name == d2.item;
                    lemma_lookup_column_wf(tb.columns, m);
                }
            }
        } else {
            let m = choose|m: int| first_column(tb.columns, ca.name, m);
            lemma_first_column_unique(tb.columns, ca.name, m);
            let cb = tb.columns[m];
            lemma_column_issue_mirror(ta.name, ca, cb, d);
            let d2 = choose|d2: DiscrepancyModel| #[trigger] column_issues(ta.name, cb, Some(ca)).contains(d2)
                && d2.table == d.table && d2.item == d.item && d2.kind == d.kind
                && d2.expected == d.actual && d2.actual == d.expected;
            lemma_lookup_column_wf(ta.columns, k);
            lemma_columns_contains(tb.name, tb.columns, ta.columns, d2);
            assert(column_issues(tb.name, tb.columns[m], lookup_column(ta.columns, tb.columns[m].name)).contains(d2));
            lemma_concat_contains(rc, r1 + r2, d2);
            lemma_diff_contains(b, a, d2);
            assert(table_issues(b[j], a).contains(d2));
        }
    } else if u1.contains(d) {
        lemma_unmatched_contains(ta.name, ta.indexes, tb.indexes, true, d);
        let k = choose|k: int| 0 <= k < ta.indexes.len() && #[trigger] index_issue(ta.name, ta.indexes[k], tb.indexes, true).contains(d);
        let ia = ta.indexes[k];
        let present = AttrModel::Index(ia.columns, ia.is_unique);
        let x = issue(ta.name, ia.name, DiscrepancyKind::IndexMismatch, Severity::Info, present, AttrModel::Absent);
        lemma_only_if_contains(!has_index(tb.indexes, ia), x, d);
        let d2 = issue(tb.name, ia.name, DiscrepancyKind::IndexMismatch, Severity::Info, AttrModel::Absent, present);
        lemma_only_if_contains(!has_index(tb.indexes, ia), d2, d2);
        assert(index_issue(tb.name, ta.indexes[k], tb.indexes, false).contains(d2));
        lemma_unmatched_contains(tb.name, ta.indexes, tb.indexes, false, d2);
        lemma_concat_contains(r1, r2, d2);
        lemma_concat_contains(rc, r1 + r2, d2);
        lemma_diff_contains(b, a, d2);
        assert(table_issues(b[j], a).contains(d2));
    } else {
        lemma_unmatched_contains(ta.name, tb.indexes, ta.indexes, false, d);
        let k = choose|k: int| 0 <= k < tb.indexes.len() && #[trigger] index_issue(ta.name, tb.indexes[k], ta.indexes, false).contains(d);
        let ib = tb.indexes[k];
        let present = AttrModel::Index(ib.columns, ib.is_unique);
        let x = issue(ta.name, ib.name, DiscrepancyKind::IndexMismatch, Severity::Info, AttrModel::Absent, present);
        lemma_only_if_contains(!has_index(ta.indexes, ib), x, d);
        let d2 = issue(tb.name, ib.name, DiscrepancyKind::IndexMismatch, Severity::Info, present, AttrModel::Absent);
        lemma_only_if_contains(!has_index(ta.indexes, ib), d2, d2);
        assert(index_issue(tb.name, tb.indexes[k], ta.indexes, true).contains(d2));
        lemma_unmatched_contains(tb.name, tb.indexes, ta.indexes, true, d2);
        lemma_concat_contains(r1, r2, d2);
        lemma_concat_contains(rc, r1 + r2, d2);
        lemma_diff_contains(b, a, d2);
        assert(table_issues(b[j], a).contains(d2));
    }
}

/// The letter that stands for a discrepancy kind in an issue id.
pub open spec fn kind_code(k: DiscrepancyKind) -> char {
    match k {
        DiscrepancyKind::MissingTable => 'T',
        DiscrepancyKind::MissingColumn => 'C',
        DiscrepancyKind::TypeMismatch => 'Y',
        DiscrepancyKind::NullabilityMismatch => 'N',
        DiscrepancyKind::DefaultValueMismatch => 'D',
        DiscrepancyKind::IndexMismatch => 'I',
    }
}

/// The issue id of a discrepancy: `table/item/code`, a function of the
/// table, the column or index and the kind alone.
pub open spec fn issue_key(table: Seq<char>, item: Seq<char>, kind: DiscrepancyKind) -> Seq<char> {
    table + seq!['/'] + item + seq!['/', kind_code(kind)]
}

impl Discrepancy {
    /// The stable id under which the decision on this discrepancy is kept.
    pub fn issue_id(&self) -> (r: String)
        ensures
            r@ == issue_key(self.table@, self.item@, self.kind),
    {
        let mut r = self.table.clone();
        push_char(&mut r, '/');
        r.append(self.item.as_str());
        push_char(&mut r, '/');
        let c = match self.kind {
            DiscrepancyKind::MissingTable => 'T',
            DiscrepancyKind::MissingColumn => 'C',
            DiscrepancyKind::TypeMismatch => 'Y',
            DiscrepancyKind::NullabilityMismatch => 'N',
            DiscrepancyKind::DefaultValueMismatch => 'D',
            DiscrepancyKind::IndexMismatch => 'I',
        };
        push_char(&mut r, c);
        assert(r@ =~= issue_key(self.table@, self.item@, self.kind));
        r
    }
}

/// Whether `a[i..]` sorts strictly before `b[i..]`, character by character.
pub open spec fn text_less_from(a: Seq<char>, b: Seq<char>, i: int) -> bool
    decreases a.len() - i,
{
    if i < 0 || i >= a.len() {
        0 <= i < b.len()
    } else if i >= b.len() {
        false
    } else if a[i] != b[i] {
        a[i] < b[i]
    } else {
        text_less_from(a, b, i + 1)
    }
}

/// Lexicographic order on texts.
pub open spec fn text_less(a: Seq<char>, b: Seq<char>) -> bool {
    text_less_from(a, b, 0)
}

proof fn lemma_text_less_irreflexive(a: Seq<char>, i: int)
    requires
        0 <= i,
    ensures
        !text_less_from(a, a, i),
    decreases a.len() - i,
{
    if i < a.len() {
        lemma_text_less_irreflexive(a, i + 1);
    }
}

proof fn lemma_text_less_asymmetric(a: Seq<char>, b: Seq<char>, i: int)
    requires
        0 <= i,
    ensures
        text_less_from(a, b, i) ==> !text_less_from(b, a, i),
    decreases a.len() - i,
{
    if i < a.len() && i < b.len() && a[i] == b[i] {
        lemma_text_less_asymmetric(a, b, i + 1);
    }
}

proof fn lemma_text_less_total(a: Seq<char>, b: Seq<char>, i: int)
    requires
        0 <= i <= a.len(),
        i <= b.len(),
    ensures
        a.subrange(i, a.len() as int) != b.subrange(i, b.len() as int) ==> text_less_from(a, b, i) || text_less_from(b, a, i),
    decreases a.len() - i,
{
    if i < a.len() && i < b.len() && a[i] == b[i] {
        lemma_text_less_total(a, b, i + 1);
        assert(a.subrange(i, a.len() as int) =~= seq![a[i]] + a.subrange(i + 1, a.len() as int));
        assert(b.subrange(i, b.len() as int) =~= seq![b[i]] + b.subrange(i + 1, b.len() as int));
    } else if i == a.len() && i == b.len() {
        assert(a.subrange(i, a.len() as int) =~= b.subrange(i, b.len() as int));
    }
}

proof fn lemma_text_less_transitive(a: Seq<char>, b: Seq<char>, c: Seq<char>, i: int)
    requires
        0 <= i,
    ensures
        text_less_from(a, b, i) && text_less_from(b, c, i) ==> text_less_from(a, c, i),
    decreases a.len() - i,
{
    if i < a.len() && i < b.len() && i < c.len() && a[i] == b[i] && b[i] == c[i] {
        lemma_text_less_transitive(a, b, c, i + 1);
    }
}

/// The rank of a kind in the order of issues.
pub open spec fn kind_rank(k: DiscrepancyKind) -> nat {
    match k {
        DiscrepancyKind::MissingTable => 0,
        DiscrepancyKind::MissingColumn => 1,
        DiscrepancyKind::TypeMismatch => 2,
        DiscrepancyKind::NullabilityMismatch => 3,
        DiscrepancyKind::DefaultValueMismatch => 4,
        DiscrepancyKind::IndexMismatch => 5,
    }
}

/// Whether `x` may come before `y`: by table, then column or index, then kind.
pub open spec fn issue_le(x: DiscrepancyModel, y: DiscrepancyModel) -> bool {
    text_less(x.table, y.table) || (x.table == y.table && (text_less(x.item, y.item)
        || (x.item == y.item && kind_rank(x.kind) <= kind_rank(y.kind))))
}

/// Issues in the order of `issue_le`.
pub open spec fn issues_sorted(s: Seq<DiscrepancyModel>) -> bool {
    forall|i: int, j: int| 0 <= i < j < s.len() ==> issue_le(#[trigger] s[i], #[trigger] s[j])
}

proof fn lemma_text_less(a: Seq<char>, b: Seq<char>, c: Seq<char>)
    ensures
        !text_less(a, a),
        text_less(a, b) ==> !text_less(b, a),
        text_less(a, b) && text_less(b, c) ==> text_less(a, c),
        a != b ==> text_less(a, b) || text_less(b, a),
{
    lemma_text_less_irreflexive(a, 0);
    lemma_text_less_asymmetric(a, b, 0);
    lemma_text_less_total(a, b, 0);
    lemma_text_less_transitive(a, b, c, 0);
    assert(a.subrange(0, a.len() as int) =~= a);
    assert(b.subrange(0, b.len() as int) =~= b);
}

proof fn lemma_issue_le(x: DiscrepancyModel, y: DiscrepancyModel, z: DiscrepancyModel)
    ensures
        issue_le(x, y) || issue_le(y, x),
        issue_le(x, y) && issue_le(y, z) ==> issue_le(x, z),
{
    lemma_text_less(x.table, y.table, z.table);
    lemma_text_less(x.item, y.item, z.item);
    lemma_text_less(x.table, x.table, x.table);
    lemma_text_less(y.table, x.table, x.table);
    lemma_text_less(y.item, x.item, x.item);
    lemma_text_less(x.table, z.table, z.table);
    lemma_text_less(x.item, z.item, z.item);
}

fn text_lt(a: &String, b: &String) -> (r: bool)
    ensures
        r == text_less(a@, b@),
{
    let x = a.as_str();
    let y = b.as_str();
    let n = x.unicode_len();
    let m = y.unicode_len();
    let mut i: usize = 0;
    while i < n && i < m
        invariant
            n == a@.len(),
            m == b@.len(),
            x@ == a@,
            y@ == b@,
            i <= n,
            i <= m,
            text_less(a@, b@) == text_less_from(a@, b@, i as int),
        decreases n - i,
    {
        let c = x.get_char(i);
        let d = y.get_char(i);
        if c != d {
            return c < d;
        }
        i = i + 1;
    }
    i < m
}

fn le(x: &Discrepancy, y: &Discrepancy) -> (r: bool)
    ensures
        r == issue_le(x@, y@),
{
    if text_lt(&x.table, &y.table) {
        return true;
    }
    if x.table != y.table {
        return false;
    }
    if text_lt(&x.item, &y.item) {
        return true;
    }
    if x.item != y.item {
        return false;
    }
    let rx: u8 = match x.kind {
        DiscrepancyKind::MissingTable => 0,
        DiscrepancyKind::MissingColumn => 1,
        DiscrepancyKind::TypeMismatch => 2,
        DiscrepancyKind::NullabilityMismatch => 3,
        DiscrepancyKind::DefaultValueMismatch => 4,
        DiscrepancyKind::IndexMismatch => 5,
    };
    let ry: u8 = match y.kind {
        DiscrepancyKind::MissingTable => 0,
        DiscrepancyKind::MissingColumn => 1,
        DiscrepancyKind::TypeMismatch => 2,
        DiscrepancyKind::NullabilityMismatch => 3,
        DiscrepancyKind::DefaultValueMismatch => 4,
        DiscrepancyKind::IndexMismatch => 5,
    };
    rx <= ry
}

/// The same issues ordered by table, then column or index, then kind.
pub fn sort_issues(v: Vec<Discrepancy>) -> (r: Vec<Discrepancy>)
    ensures
        issues_sorted(issues(r@)),
        issues(r@).to_multiset() == issues(v@).to_multiset(),
{
    broadcast use vstd::multiset::group_multiset_axioms;
    let mut rest = v;
    let mut out: Vec<Discrepancy> = Vec::new();
    assert(issues(out@) =~= Seq::<DiscrepancyModel>::empty());
    proof {
        vstd::seq_lib::to_multiset_len(issues(out@));
        vstd::multiset::lemma_multiset_empty_len(issues(out@).to_multiset());
    }
    assert(issues(out@).to_multiset() =~= Multiset::<DiscrepancyModel>::empty());
    assert(issues(v@).to_multiset() =~= issues(rest@).to_multiset().add(issues(out@).to_multiset()));
    while rest.len() > 0
        invariant
            issues_sorted(issues(out@)),
            issues(v@).to_multiset() == issues(rest@).to_multiset().add(issues(out@).to_multiset()),
        decreases rest@.len(),
    {
        let ghost before = rest@;
        let d = rest.pop().unwrap();
        assert(issues(before) =~= issues(rest@).push(d@));
        let mut p: usize = 0;
        while p < out.len() && le(&out[p], &d)
            invariant
                p <= out@.len(),
                forall|k: int| 0 <= k < p ==> issue_le(#[trigger] issues(out@)[k], d@),
            decreases out@.len() - p,
        {
            p = p + 1;
        }
        let ghost prev = issues(out@);
        out.insert(p, d);
        proof {
            assert(issues(out@) =~= prev.insert(p as int, d@));
            let s = issues(out@);
            assert forall|i: int, j: int| 0 <= i < j < s.len() implies issue_le(#[trigger] s[i], #[trigger] s[j]) by {
                if i < p && j == p {
                } else if i == p && j > p {
                    lemma_issue_le(prev[p as int], d@, d@);
                    lemma_issue_le(d@, prev[p as int], prev[j - 1]);
                    if p + 1 < j {
                        assert(issue_le(prev[p as int], prev[j - 1]));
                    }
                } else if i < p && j > p {
                    assert(issue_le(prev[i], prev[j - 1]));
                } else if j < p {
                    assert(issue_le(prev[i], prev[j]));
                } else {
                    assert(issue_le(prev[i - 1], prev[j - 1]));
                }
            }
            vstd::seq_lib::to_multiset_insert(prev, p as int, d@);
            vstd::seq_lib::to_multiset_build(issues(rest@), d@);
            assert(issues(v@).to_multiset() =~= issues(rest@).to_multiset().add(issues(out@).to_multiset()));
        }
    }
    assert(issues(rest@) =~= Seq::<DiscrepancyModel>::empty());
    proof {
        vstd::seq_lib::to_multiset_len(issues(rest@));
        vstd::multiset::lemma_multiset_empty_len(issues(rest@).to_multiset());
    }
    assert(issues(rest@).to_multiset() =~= Multiset::<DiscrepancyModel>::empty());
    assert(issues(out@).to_multiset() =~= issues(v@).to_multiset());
    out
}

/// `diff_schemas`, ordered by table, then column or index, then kind.
pub fn sorted_diff(expected: &[TableMetadata], actual: &[TableMetadata]) -> (r: Vec<Discrepancy>)
    ensures
        issues_sorted(issues(r@)),
        issues(r@).to_multiset() == schema_diff(snapshot(expected@), snapshot(actual@)).to_multiset(),
{
    sort_issues(diff_schemas(expected, actual))
}

} // verus!
