use vstd::prelude::*;

verus! {

/// One column of a table, with its type normalised by the collector.
#[derive(Debug, Clone)]
pub struct ColumnMetadata {
    pub name: String,
    pub data_type: String,
    pub length: Option<i32>,
    pub nullable: bool,
    pub default_value: Option<String>,
}

/// One index of a table.
#[derive(Debug, Clone)]
pub struct IndexMetadata {
    pub name: String,
    pub columns: Vec<String>,
    pub is_unique: bool,
}

/// One table of a schema snapshot.
#[derive(Debug, Clone)]
pub struct TableMetadata {
    pub name: String,
    pub columns: Vec<ColumnMetadata>,
    pub primary_keys: Vec<String>,
    pub indexes: Vec<IndexMetadata>,
}

pub struct ColumnModel {
    pub name: Seq<char>,
    pub data_type: Seq<char>,
    pub length: Option<i32>,
    pub nullable: bool,
    pub default_value: Option<Seq<char>>,
}

pub struct IndexModel {
    pub name: Seq<char>,
    pub columns: Seq<Seq<char>>,
    pub is_unique: bool,
}

pub struct TableModel {
    pub name: Seq<char>,
    pub columns: Seq<ColumnModel>,
    pub primary_keys: Seq<Seq<char>>,
    pub indexes: Seq<IndexModel>,
}

/// The text of an optional string.
pub open spec fn opt_text(o: Option<String>) -> Option<Seq<char>> {
    match o {
        Some(s) => Some(s@),
        None => None,
    }
}

/// The text of each string in a list.
pub open spec fn names(v: Seq<String>) -> Seq<Seq<char>> {
    v.map_values(|s: String| s@)
}

impl View for ColumnMetadata {
    type V = ColumnModel;

    open spec fn view(&self) -> ColumnModel {
        ColumnModel {
            name: self.name@,
            data_type: self.data_type@,
            length: self.length,
            nullable: self.nullable,
            default_value: opt_text(self.default_value),
        }
    }
}

impl View for IndexMetadata {
    type V = IndexModel;

    open spec fn view(&self) -> IndexModel {
        IndexModel { name: self.name@, columns: names(self.columns@), is_unique: self.is_unique }
    }
}

impl View for TableMetadata {
    type V = TableModel;

    open spec fn view(&self) -> TableModel {
        TableModel {
            name: self.name@,
            columns: column_models(self.columns@),
            primary_keys: names(self.primary_keys@),
            indexes: index_models(self.indexes@),
        }
    }
}

pub open spec fn column_models(v: Seq<ColumnMetadata>) -> Seq<ColumnModel> {
    v.map_values(|c: ColumnMetadata| c@)
}

pub open spec fn index_models(v: Seq<IndexMetadata>) -> Seq<IndexModel> {
    v.map_values(|i: IndexMetadata| i@)
}

/// The model of a snapshot.
pub open spec fn snapshot(tables: Seq<TableMetadata>) -> Seq<TableModel> {
    tables.map_values(|t: TableMetadata| t@)
}

/// A snapshot as a catalog yields it: table names are unique, and so are the
/// column names of each table.
pub open spec fn snapshot_wf(tables: Seq<TableModel>) -> bool {
    &&& forall|i: int, j: int|
        0 <= i < tables.len() && 0 <= j < tables.len() && #[trigger] tables[i].name == #[trigger] tables[j].name
            ==> i == j
    &&& forall|i: int| 0 <= i < tables.len() ==> columns_unique(#[trigger] tables[i].columns)
}

pub open spec fn columns_unique(cols: Seq<ColumnModel>) -> bool {
    forall|i: int, j: int|
        0 <= i < cols.len() && 0 <= j < cols.len() && #[trigger] cols[i].name == #[trigger] cols[j].name ==> i == j
}

/// Copies a list of strings.
pub fn copy_strings(v: &Vec<String>) -> (r: Vec<String>)
    ensures
        names(r@) == names(v@),
{
    let mut r: Vec<String> = Vec::new();
    let mut i: usize = 0;
    while i < v.len()
        invariant
            i <= v@.len(),
            names(r@) == names(v@.subrange(0, i as int)),
        decreases v@.len() - i,
    {
        let ghost before = r@;
        let s = v[i].clone();
        r.push(s);
        assert(names(r@) =~= names(before).push(v@[i as int]@));
        assert(names(v@.subrange(0, i + 1)) =~= names(v@.subrange(0, i as int)).push(v@[i as int]@));
        i = i + 1;
    }
    assert(v@.subrange(0, i as int) =~= v@);
    r
}

/// Whether two lists of strings hold the same texts in the same order.
pub fn same_strings(a: &Vec<String>, b: &Vec<String>) -> (r: bool)
    ensures
        r == (names(a@) == names(b@)),
{
    if a.len() != b.len() {
        assert(names(a@).len() != names(b@).len());
        return false;
    }
    let mut i: usize = 0;
    while i < a.len()
        invariant
            a@.len() == b@.len(),
            i <= a@.len(),
            forall|k: int| 0 <= k < i ==> #[trigger] a@[k]@ == b@[k]@,
        decreases a@.len() - i,
    {
        if a[i] != b[i] {
            assert(names(a@)[i as int] != names(b@)[i as int]);
            return false;
        }
        i = i + 1;
    }
    assert(names(a@) =~= names(b@));
    true
}

/// Whether two optional strings are equal.
pub fn same_opt_text(a: &Option<String>, b: &Option<String>) -> (r: bool)
    ensures
        r == (opt_text(*a) == opt_text(*b)),
{
    match (a, b) {
        (Some(x), Some(y)) => *x == *y,
        (None, None) => true,
        _ => false,
    }
}

} // verus!
