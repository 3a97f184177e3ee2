use vstd::prelude::*;
use crate::batch::{batch_count, batch_count_of, batch_end, batch_start, lemma_batch_start_in_range};

verus! {

/// Whether `c` has the Unicode `Alphabetic` or `Numeric` property.
pub uninterp spec fn alphanumeric(c: char) -> bool;

/// Whether `c` has the Unicode `Alphabetic` property.
pub uninterp spec fn alphabetic(c: char) -> bool;

/// Relies on `char::is_alphanumeric`: the Unicode Alphabetic or Numeric
/// property of `c`, which includes the ASCII letters and digits.
#[verifier::external_body]
fn char_is_alphanumeric(c: char) -> (r: bool)
    ensures
        r == alphanumeric(c),
        ('a' <= c && c <= 'z') || ('A' <= c && c <= 'Z') || ('0' <= c && c <= '9') ==> r,
{
    c.is_alphanumeric()
}

/// Relies on `char::is_alphabetic`: the Unicode Alphabetic property of `c`,
/// which includes the ASCII letters.
#[verifier::external_body]
fn char_is_alphabetic(c: char) -> (r: bool)
    ensures
        r == alphabetic(c),
        ('a' <= c && c <= 'z') || ('A' <= c && c <= 'Z') ==> r,
{
    c.is_alphabetic()
}

/// Relies on `String::push`: appends one character.
#[verifier::external_body]
pub(crate) fn push_char(s: &mut String, c: char)
    ensures
        final(s)@ == old(s)@.push(c),
{
    s.push(c)
}

/// A character that may stand in an identifier unchanged.
pub open spec fn identifier_char(c: char) -> bool {
    alphanumeric(c) || c == '_'
}

/// `s` with every character that may not stand in an identifier replaced by `_`.
pub open spec fn sanitized(s: Seq<char>) -> Seq<char> {
    s.map_values(|c: char| if identifier_char(c) { c } else { '_' })
}

/// `s` with every single quote doubled.
pub open spec fn escaped(s: Seq<char>) -> Seq<char>
    decreases s.len(),
{
    if s.len() == 0 {
        Seq::empty()
    } else {
        let c = s.last();
        escaped(s.drop_last()) + if c == '\'' { seq!['\'', '\''] } else { seq![c] }
    }
}

/// `s` as an SQL string literal: escaped and wrapped in single quotes.
pub open spec fn sql_literal(s: Seq<char>) -> Seq<char> {
    seq!['\''] + escaped(s) + seq!['\'']
}

/// Replaces every character of `name` that is neither alphanumeric nor `_` by `_`.
pub fn sanitize_table_name(name: &str) -> (r: String)
    ensures
        r@ == sanitized(name@),
{
    let n = name.unicode_len();
    let mut out = String::new();
    let mut i: usize = 0;
    while i < n
        invariant
            n == name@.len(),
            i <= n,
            out@ == sanitized(name@.subrange(0, i as int)),
        decreases n - i,
    {
        let c = name.get_char(i);
        let ok = char_is_alphanumeric(c) || c == '_';
        if ok {
            push_char(&mut out, c);
        } else {
            push_char(&mut out, '_');
        }
        assert(name@.subrange(0, i + 1) =~= name@.subrange(0, i as int).push(c));
        i = i + 1;
    }
    assert(name@.subrange(0, n as int) =~= name@);
    out
}

/// Appends the SQL literal of `value` to `out`.
fn push_sql_literal(out: &mut String, value: &str)
    ensures
        final(out)@ == old(out)@ + sql_literal(value@),
{
    let n = value.unicode_len();
    push_char(out, '\'');
    let ghost start = out@;
    let mut i: usize = 0;
    while i < n
        invariant
            n == value@.len(),
            i <= n,
            out@ == start + escaped(value@.subrange(0, i as int)),
        decreases n - i,
    {
        let c = value.get_char(i);
        if c == '\'' {
            push_char(out, '\'');
            push_char(out, '\'');
        } else {
            push_char(out, c);
        }
        let ghost pre = value@.subrange(0, i + 1);
        assert(pre.drop_last() =~= value@.subrange(0, i as int));
        i = i + 1;
        assert(out@ =~= start + escaped(pre));
    }
    assert(value@.subrange(0, n as int) =~= value@);
    push_char(out, '\'');
    assert(out@ =~= old(out)@ + sql_literal(value@));
}

/// Escapes single quotes in `value` and wraps it in single quotes.
pub fn format_sql_value(value: &str) -> (r: String)
    ensures
        r@ == sql_literal(value@),
{
    let mut out = String::new();
    push_sql_literal(&mut out, value);
    assert(out@ =~= sql_literal(value@));
    out
}


/// The decimal digit character of `d`.
pub open spec fn digit_char(d: nat) -> char {
    if d == 0 { '0' } else if d == 1 { '1' } else if d == 2 { '2' } else if d == 3 { '3' }
    else if d == 4 { '4' } else if d == 5 { '5' } else if d == 6 { '6' } else if d == 7 { '7' }
    else if d == 8 { '8' } else { '9' }
}

/// The decimal representation of `n`, without leading zeros.
pub open spec fn decimal(n: nat) -> Seq<char>
    decreases n,
{
    if n < 10 {
        seq![digit_char(n)]
    } else {
        decimal(n / 10).push(digit_char(n % 10))
    }
}

/// `n` seconds written as hours, minutes and seconds, leaving out leading zero units.
pub open spec fn duration_text(n: nat) -> Seq<char> {
    let h = n / 3600;
    let m = (n % 3600) / 60;
    let s = n % 60;
    if h > 0 {
        decimal(h) + seq!['h', ' '] + decimal(m) + seq!['m', ' '] + decimal(s) + seq!['s']
    } else if m > 0 {
        decimal(m) + seq!['m', ' '] + decimal(s) + seq!['s']
    } else {
        decimal(s) + seq!['s']
    }
}

fn digit(d: u64) -> (c: char)
    requires
        d < 10,
    ensures
        c == digit_char(d as nat),
{
    if d == 0 { '0' } else if d == 1 { '1' } else if d == 2 { '2' } else if d == 3 { '3' }
    else if d == 4 { '4' } else if d == 5 { '5' } else if d == 6 { '6' } else if d == 7 { '7' }
    else if d == 8 { '8' } else { '9' }
}

/// Appends the decimal representation of `n` to `out`.
pub fn push_decimal(out: &mut String, n: u64)
    ensures
        final(out)@ == old(out)@ + decimal(n as nat),
    decreases n,
{
    if n >= 10 {
        push_decimal(out, n / 10);
    }
    push_char(out, digit(n % 10));
    assert(out@ =~= old(out)@ + decimal(n as nat));
}

/// Formats a number of seconds as `"1h 2m 3s"`, `"2m 3s"` or `"3s"`.
pub fn format_duration(seconds: u64) -> (r: String)
    ensures
        r@ == duration_text(seconds as nat),
{
    let hours = seconds / 3600;
    let minutes = (seconds % 3600) / 60;
    let secs = seconds % 60;
    let mut out = String::new();
    if hours > 0 {
        push_decimal(&mut out, hours);
        out.append("h ");
        push_decimal(&mut out, minutes);
        out.append("m ");
    } else if minutes > 0 {
        push_decimal(&mut out, minutes);
        out.append("m ");
    }
    push_decimal(&mut out, secs);
    push_char(&mut out, 's');
    proof {
        reveal_strlit("h ");
        reveal_strlit("m ");
    }
    assert(out@ =~= duration_text(seconds as nat));
    out
}

/// Why a table or column name was refused.
#[derive(Debug, Clone, Copy, PartialEq, Eq, Structural)]
pub enum NameError {
    Empty,
    MustStartWithLetter,
    InvalidCharacter,
}

/// What `validate_table_name` and `validate_column_name` decide for `s`.
pub open spec fn name_check(s: Seq<char>) -> Result<(), NameError> {
    if s.len() == 0 {
        Err(NameError::Empty)
    } else if !alphabetic(s[0]) {
        Err(NameError::MustStartWithLetter)
    } else if exists|i: int| 0 <= i < s.len() && !identifier_char(#[trigger] s[i]) {
        Err(NameError::InvalidCharacter)
    } else {
        Ok(())
    }
}

fn check_identifier(name: &str) -> (r: Result<(), NameError>)
    ensures
        r == name_check(name@),
{
    let n = name.unicode_len();
    if n == 0 {
        return Err(NameError::Empty);
    }
    if !char_is_alphabetic(name.get_char(0)) {
        return Err(NameError::MustStartWithLetter);
    }
    let mut i: usize = 0;
    while i < n
        invariant
            n == name@.len(),
            i <= n,
            n > 0,
            alphabetic(name@[0]),
            forall|j: int| 0 <= j < i ==> identifier_char(#[trigger] name@[j]),
        decreases n - i,
    {
        let c = name.get_char(i);
        if !(char_is_alphanumeric(c) || c == '_') {
            assert(!identifier_char(name@[i as int]));
            return Err(NameError::InvalidCharacter);
        }
        i = i + 1;
    }
    Ok(())
}

/// Accepts a table name that is non-empty, starts with a letter and holds only
/// letters, digits and underscores.
pub fn validate_table_name(name: &str) -> (r: Result<(), NameError>)
    ensures
        r == name_check(name@),
{
    check_identifier(name)
}

/// Accepts a column name under the same rule as a table name.
pub fn validate_column_name(name: &str) -> (r: Result<(), NameError>)
    ensures
        r == name_check(name@),
{
    check_identifier(name)
}


/// The parts joined, with `sep` between each two.
pub open spec fn joined(parts: Seq<Seq<char>>, sep: Seq<char>) -> Seq<char>
    decreases parts.len(),
{
    if parts.len() == 0 {
        Seq::empty()
    } else if parts.len() == 1 {
        parts[0]
    } else {
        joined(parts.drop_last(), sep) + sep + parts.last()
    }
}

/// The text of a list of strings.
pub open spec fn texts(v: Seq<String>) -> Seq<Seq<char>> {
    v.map_values(|s: String| s@)
}

/// The text of a list of rows.
pub open spec fn cells(rows: Seq<Vec<String>>) -> Seq<Seq<Seq<char>>> {
    rows.map_values(|r: Vec<String>| texts(r@))
}

/// One row as a parenthesised list of SQL literals.
pub open spec fn row_tuple(row: Seq<Seq<char>>) -> Seq<char> {
    seq!['('] + joined(row.map_values(|v: Seq<char>| sql_literal(v)), seq![',', ' ']) + seq![')']
}

/// One INSERT statement for `rows` of the table named `table`.
pub open spec fn insert_statement(table: Seq<char>, columns: Seq<Seq<char>>, rows: Seq<Seq<Seq<char>>>) -> Seq<char> {
    "INSERT INTO "@ + table + seq![' ', '('] + joined(columns, seq![',', ' '])
        + ") VALUES "@ + joined(rows.map_values(|r: Seq<Seq<char>>| row_tuple(r)), seq![',', ' '])
}

pub(crate) proof fn lemma_joined_push(parts: Seq<Seq<char>>, sep: Seq<char>, x: Seq<char>)
    ensures
        joined(parts.push(x), sep) == if parts.len() == 0 { x } else { joined(parts, sep) + sep + x },
{
    assert(parts.push(x).drop_last() =~= parts);
    if parts.len() == 0 {
        assert(parts.push(x)[0] == x);
    }
}

/// Appends `items` joined by `, ` after the text already in `out`.
pub(crate) fn push_joined_texts(out: &mut String, items: &[String])
    ensures
        final(out)@ == old(out)@ + joined(texts(items@), seq![',', ' ']),
{
    let ghost start = out@;
    let ghost sep = seq![',', ' '];
    let mut j: usize = 0;
    while j < items.len()
        invariant
            j <= items@.len(),
            sep == seq![',', ' '],
            out@ == start + joined(texts(items@.subrange(0, j as int)), sep),
        decreases items@.len() - j,
    {
        if j > 0 {
            out.append(", ");
            proof { reveal_strlit(", "); }
        }
        out.append(items[j].as_str());
        proof {
            let prev = texts(items@.subrange(0, j as int));
            assert(texts(items@.subrange(0, j + 1)) =~= prev.push(items@[j as int]@));
            lemma_joined_push(prev, sep, items@[j as int]@);
        }
        j = j + 1;
        assert(out@ =~= start + joined(texts(items@.subrange(0, j as int)), sep));
    }
    assert(items@.subrange(0, j as int) =~= items@);
}

/// Appends one row as a parenthesised list of SQL literals.
fn push_row_tuple(out: &mut String, row: &Vec<String>)
    ensures
        final(out)@ == old(out)@ + row_tuple(texts(row@)),
{
    let ghost start = out@;
    let ghost sep = seq![',', ' '];
    let ghost lit = |v: Seq<char>| sql_literal(v);
    push_char(out, '(');
    let mut j: usize = 0;
    while j < row.len()
        invariant
            j <= row@.len(),
            sep == seq![',', ' '],
            lit == (|v: Seq<char>| sql_literal(v)),
            out@ == start + seq!['('] + joined(texts(row@.subrange(0, j as int)).map_values(lit), sep),
        decreases row@.len() - j,
    {
        if j > 0 {
            out.append(", ");
            proof { reveal_strlit(", "); }
        }
        push_sql_literal(out, row[j].as_str());
        proof {
            let prev = texts(row@.subrange(0, j as int)).map_values(lit);
            assert(texts(row@.subrange(0, j + 1)).map_values(lit) =~= prev.push(sql_literal(row@[j as int]@)));
            lemma_joined_push(prev, sep, sql_literal(row@[j as int]@));
        }
        j = j + 1;
        assert(out@ =~= start + seq!['('] + joined(texts(row@.subrange(0, j as int)).map_values(lit), sep));
    }
    assert(row@.subrange(0, j as int) =~= row@);
    push_char(out, ')');
    assert(out@ =~= start + row_tuple(texts(row@)));
}

/// One INSERT statement for the rows `values[from..to]`.
fn insert_sql(table: &String, columns: &[String], values: &[Vec<String>], from: usize, to: usize) -> (r: String)
    requires
        from <= to <= values@.len(),
    ensures
        r@ == insert_statement(table@, texts(columns@), cells(values@).subrange(from as int, to as int)),
{
    let mut out = String::from_str("INSERT INTO ");
    out.append(table.as_str());
    out.append(" (");
    push_joined_texts(&mut out, columns);
    out.append(") VALUES ");
    let ghost head = out@;
    let ghost sep = seq![',', ' '];
    let ghost tup = |r: Seq<Seq<char>>| row_tuple(r);
    let mut j: usize = from;
    while j < to
        invariant
            from <= j <= to <= values@.len(),
            sep == seq![',', ' '],
            tup == (|r: Seq<Seq<char>>| row_tuple(r)),
            out@ == head + joined(cells(values@).subrange(from as int, j as int).map_values(tup), sep),
        decreases to - j,
    {
        if j > from {
            out.append(", ");
            proof { reveal_strlit(", "); }
        }
        push_row_tuple(&mut out, &values[j]);
        proof {
            let prev = cells(values@).subrange(from as int, j as int).map_values(tup);
            assert(cells(values@).subrange(from as int, j + 1).map_values(tup)
                =~= prev.push(row_tuple(texts(values@[j as int]@))));
            lemma_joined_push(prev, sep, row_tuple(texts(values@[j as int]@)));
        }
        j = j + 1;
        assert(out@ =~= head + joined(cells(values@).subrange(from as int, j as int).map_values(tup), sep));
    }
    proof {
        reveal_strlit("INSERT INTO ");
        reveal_strlit(" (");
        reveal_strlit(") VALUES ");
    }
    assert(out@ =~= insert_statement(table@, texts(columns@), cells(values@).subrange(from as int, to as int)));
    out
}

/// One INSERT statement per batch of `batch_size` rows of `values`, in order,
/// into the sanitized `table_name`.
pub fn generate_batch_insert_sql(
    table_name: &str,
    columns: &[String],
    values: &[Vec<String>],
    batch_size: usize,
) -> (r: Vec<String>)
    requires
        batch_size > 0,
    ensures
        r@.len() == batch_count(values@.len(), batch_size as nat),
        forall|k: int| 0 <= k < r@.len() ==> #[trigger] r@[k]@ == insert_statement(
            sanitized(table_name@),
            texts(columns@),
            cells(values@).subrange(
                batch_start(batch_size as nat, k as nat) as int,
                batch_end(values@.len(), batch_size as nat, k as nat) as int,
            ),
        ),
{
    let table = sanitize_table_name(table_name);
    let n = values.len();
    let count = batch_count_of(n, batch_size);
    let mut queries: Vec<String> = Vec::new();
    let mut k: usize = 0;
    while k < count
        invariant
            batch_size > 0,
            n == values@.len(),
            count == batch_count(n as nat, batch_size as nat),
            k <= count,
            table@ == sanitized(table_name@),
            queries@.len() == k,
            forall|i: int| 0 <= i < k ==> #[trigger] queries@[i]@ == insert_statement(
                sanitized(table_name@),
                texts(columns@),
                cells(values@).subrange(
                    batch_start(batch_size as nat, i as nat) as int,
                    batch_end(n as nat, batch_size as nat, i as nat) as int,
                ),
            ),
        decreases count - k,
    {
        proof { lemma_batch_start_in_range(n as nat, batch_size as nat, k as nat); }
        let start = k * batch_size;
        let end = if n - start >= batch_size { start + batch_size } else { n };
        let q = insert_sql(&table, columns, values, start, end);
        queries.push(q);
        k = k + 1;
    }
    queries
}

} // verus!
