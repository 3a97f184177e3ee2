use vstd::prelude::*;
use crate::metadata::{column_models, names, ColumnMetadata, ColumnModel, IndexMetadata, TableMetadata};
use crate::utils::{decimal, joined, push_decimal, sanitized, sanitize_table_name};

verus! {

/// A column definition: name, type, length where one is set, and
/// `NOT NULL` for a column that is not nullable.
pub open spec fn column_definition(c: ColumnModel) -> Seq<char> {
    c.name + seq![' '] + c.data_type
        + match c.length {
            Some(l) => if l >= 0 { seq!['('] + decimal(l as nat) + seq![')'] } else { Seq::empty() },
            None => Seq::empty(),
        }
        + if c.nullable { Seq::empty() } else { " NOT NULL"@ }
}

pub open spec fn column_definitions(cols: Seq<ColumnModel>) -> Seq<Seq<char>> {
    cols.map_values(|c: ColumnModel| column_definition(c))
}

/// `CREATE TABLE t (definitions)`.
pub open spec fn create_table_text(table: Seq<char>, cols: Seq<ColumnModel>) -> Seq<char> {
    "CREATE TABLE "@ + sanitized(table) + seq![' ', '('] + joined(column_definitions(cols), seq![',', ' ']) + seq![')']
}

/// `ALTER TABLE t ADD definition`.
pub open spec fn add_column_text(table: Seq<char>, c: ColumnModel) -> Seq<char> {
    "ALTER TABLE "@ + sanitized(table) + " ADD "@ + column_definition(c)
}

/// `ALTER TABLE t ALTER COLUMN definition`.
pub open spec fn alter_column_text(table: Seq<char>, c: ColumnModel) -> Seq<char> {
    "ALTER TABLE "@ + sanitized(table) + " ALTER COLUMN "@ + column_definition(c)
}

/// `CREATE [UNIQUE ]INDEX name ON t (columns)`.
pub open spec fn create_index_text(table: Seq<char>, name: Seq<char>, cols: Seq<Seq<char>>, unique: bool) -> Seq<char> {
    (if unique { "CREATE UNIQUE INDEX "@ } else { "CREATE INDEX "@ }) + name + " ON "@ + sanitized(table)
        + seq![' ', '('] + joined(cols, seq![',', ' ']) + seq![')']
}

fn push_column_definition(out: &mut String, c: &ColumnMetadata)
    ensures
        final(out)@ == old(out)@ + column_definition(c@),
{
    out.append(c.name.as_str());
    out.append(" ");
    out.append(c.data_type.as_str());
    let ghost mid = out@;
    match c.length {
        Some(l) => {
            if l >= 0 {
                out.append("(");
                push_decimal(out, l as u64);
                out.append(")");
            }
        },
        None => {},
    }
    if !c.nullable {
        out.append(" NOT NULL");
    }
    proof {
        reveal_strlit(" ");
        reveal_strlit("(");
        reveal_strlit(")");
        reveal_strlit(" NOT NULL");
    }
    assert(out@ =~= old(out)@ + column_definition(c@));
}

/// The definition of one column, as it stands in CREATE and ALTER statements.
pub fn column_sql(c: &ColumnMetadata) -> (r: String)
    ensures
        r@ == column_definition(c@),
{
    let mut out = String::new();
    push_column_definition(&mut out, c);
    assert(out@ =~= column_definition(c@));
    out
}

/// The statement that creates `table` with all its columns.
pub fn create_table_sql(table: &TableMetadata) -> (r: String)
    ensures
        r@ == create_table_text(table.name@, column_models(table.columns@)),
{
    let mut out = String::from_str("CREATE TABLE ");
    let name = sanitize_table_name(table.name.as_str());
    out.append(name.as_str());
    out.append(" (");
    let ghost head = out@;
    let ghost sep = seq![',', ' '];
    let cols = &table.columns;
    let mut k: usize = 0;
    while k < cols.len()
        invariant
            k <= cols@.len(),
            sep == seq![',', ' '],
            out@ == head + joined(column_definitions(column_models(cols@.subrange(0, k as int))), sep),
        decreases cols@.len() - k,
    {
        if k > 0 {
            out.append(", ");
            proof { reveal_strlit(", "); }
        }
        push_column_definition(&mut out, &cols[k]);
        proof {
            let prev = column_definitions(column_models(cols@.subrange(0, k as int)));
            assert(column_definitions(column_models(cols@.subrange(0, k + 1)))
                =~= prev.push(column_definition(cols@[k as int]@)));
            crate::utils::lemma_joined_push(prev, sep, column_definition(cols@[k as int]@));
        }
        k = k + 1;
        assert(out@ =~= head + joined(column_definitions(column_models(cols@.subrange(0, k as int))), sep));
    }
    assert(cols@.subrange(0, k as int) =~= cols@);
    out.append(")");
    proof {
        reveal_strlit("CREATE TABLE ");
        reveal_strlit(" (");
        reveal_strlit(")");
    }
    assert(out@ =~= create_table_text(table.name@, column_models(table.columns@)));
    out
}

/// The statement that adds column `c` to `table`.
pub fn add_column_sql(table: &str, c: &ColumnMetadata) -> (r: String)
    ensures
        r@ == add_column_text(table@, c@),
{
    let mut out = String::from_str("ALTER TABLE ");
    let name = sanitize_table_name(table);
    out.append(name.as_str());
    out.append(" ADD ");
    push_column_definition(&mut out, c);
    proof {
        reveal_strlit("ALTER TABLE ");
        reveal_strlit(" ADD ");
    }
    assert(out@ =~= add_column_text(table@, c@));
    out
}

/// The statement that changes column `c` of `table` to its expected definition.
pub fn alter_column_sql(table: &str, c: &ColumnMetadata) -> (r: String)
    ensures
        r@ == alter_column_text(table@, c@),
{
    let mut out = String::from_str("ALTER TABLE ");
    let name = sanitize_table_name(table);
    out.append(name.as_str());
    out.append(" ALTER COLUMN ");
    push_column_definition(&mut out, c);
    proof {
        reveal_strlit("ALTER TABLE ");
        reveal_strlit(" ALTER COLUMN ");
    }
    assert(out@ =~= alter_column_text(table@, c@));
    out
}

/// The statement that creates index `i` on `table`.
pub fn create_index_sql(table: &str, i: &IndexMetadata) -> (r: String)
    ensures
        r@ == create_index_text(table@, i.name@, names(i.columns@), i.is_unique),
{
    let mut out = if i.is_unique { String::from_str("CREATE UNIQUE INDEX ") } else { String::from_str("CREATE INDEX ") };
    out.append(i.name.as_str());
    out.append(" ON ");
    let name = sanitize_table_name(table);
    out.append(name.as_str());
    out.append(" (");
    crate::utils::push_joined_texts(&mut out, i.columns.as_slice());
    out.append(")");
    proof {
        reveal_strlit("CREATE UNIQUE INDEX ");
        reveal_strlit("CREATE INDEX ");
        reveal_strlit(" ON ");
        reveal_strlit(" (");
        reveal_strlit(")");
    }
    assert(names(i.columns@) == crate::utils::texts(i.columns@));
    assert(out@ =~= create_index_text(table@, i.name@, names(i.columns@), i.is_unique));
    out
}

} // verus!
