//! SQL of the SQLite exporter: the table of the exported fields and the
//! insert statement, and when a batch is committed.

use vstd::prelude::*;
use crate::features::{field_name, field_name_at, FIELD_COUNT};
use crate::text::owned;

verus! {

/// Column type of the `i`-th field.
pub open spec fn column_type(i: int) -> Seq<char> {
    if i == 0 {
        "TEXT NOT NULL"@
    } else if i == 1 {
        "INTEGER NOT NULL"@
    } else if 2 <= i <= 5 {
        "TEXT NOT NULL"@
    } else if 6 <= i <= 9 {
        "TEXT"@
    } else if i == 10 {
        "TEXT NOT NULL"@
    } else if i == 11 {
        "REAL"@
    } else if i == 12 || i == 13 {
        "INTEGER"@
    } else {
        "TEXT"@
    }
}

fn column_type_at(i: usize) -> (r: &'static str)
    requires
        i < FIELD_COUNT,
    ensures
        r@ == column_type(i as int),
{
    if i == 0 {
        "TEXT NOT NULL"
    } else if i == 1 {
        "INTEGER NOT NULL"
    } else if i <= 5 {
        "TEXT NOT NULL"
    } else if i <= 9 {
        "TEXT"
    } else if i == 10 {
        "TEXT NOT NULL"
    } else if i == 11 {
        "REAL"
    } else if i <= 13 {
        "INTEGER"
    } else {
        "TEXT"
    }
}

/// `parts` joined by `", "`.
pub open spec fn join_comma_space(parts: Seq<Seq<char>>) -> Seq<char>
    decreases parts.len(),
{
    if parts.len() == 0 {
        Seq::empty()
    } else if parts.len() == 1 {
        parts[0]
    } else {
        join_comma_space(parts.drop_last()) + ", "@ + parts.last()
    }
}

/// The column definitions of the fields `idxs`.
pub open spec fn column_defs(idxs: Seq<usize>) -> Seq<Seq<char>> {
    Seq::new(idxs.len(), |k: int| field_name(idxs[k] as int) + " "@ + column_type(idxs[k] as int))
}

/// The column names of the fields `idxs`.
pub open spec fn column_names(idxs: Seq<usize>) -> Seq<Seq<char>> {
    Seq::new(idxs.len(), |k: int| field_name(idxs[k] as int))
}

/// `n` placeholders.
pub open spec fn question_marks(n: nat) -> Seq<Seq<char>> {
    Seq::new(n, |k: int| "?"@)
}

/// Joins `parts` with `", "` onto `out`.
fn append_joined(out: &mut String, parts: &Vec<String>)
    ensures
        final(out)@ == old(out)@ + join_comma_space(crate::filters::strings_view(parts@)),
{
    let ghost ps = crate::filters::strings_view(parts@);
    let mut i: usize = 0;
    while i < parts.len()
        invariant
            i <= parts.len(),
            ps == crate::filters::strings_view(parts@),
            out@ == old(out)@ + join_comma_space(ps.take(i as int)),
        decreases parts.len() - i,
    {
        assert(ps.take(i + 1).drop_last() =~= ps.take(i as int));
        assert(ps.take(i + 1).last() == parts@[i as int]@);
        if i > 0 {
            out.append(", ");
        } else {
            assert(ps.take(1)[0] == parts@[0]@);
        }
        out.append(parts[i].as_str());
        proof {
            if i > 0 {
                assert(old(out)@ + join_comma_space(ps.take(i as int)) + ", "@ + parts@[i as int]@
                    =~= old(out)@ + join_comma_space(ps.take(i + 1)));
            } else {
                assert(old(out)@ + join_comma_space(ps.take(0)) + parts@[0]@ =~= old(out)@ + join_comma_space(ps.take(1)));
            }
        }
        i += 1;
    }
    assert(ps.take(i as int) =~= ps);
}

/// The table of the exported fields:
/// `CREATE TABLE IF NOT EXISTS <table> (<name> <type>, ...)`.
pub fn build_create_sql(table_name: &str, ordered: &[usize]) -> (r: String)
    requires
        forall|k: int| 0 <= k < ordered@.len() ==> #[trigger] ordered@[k] < FIELD_COUNT,
    ensures
        r@ == "CREATE TABLE IF NOT EXISTS "@ + table_name@ + " ("@ + join_comma_space(column_defs(ordered@)) + ")"@,
{
    let mut cols: Vec<String> = Vec::new();
    let mut i: usize = 0;
    while i < ordered.len()
        invariant
            i <= ordered.len(),
            forall|k: int| 0 <= k < ordered@.len() ==> #[trigger] ordered@[k] < FIELD_COUNT,
            crate::filters::strings_view(cols@) == column_defs(ordered@).take(i as int),
        decreases ordered.len() - i,
    {
        let idx = ordered[i];
        let mut c = owned(field_name_at(idx));
        c.append(" ");
        c.append(column_type_at(idx));
        let ghost before = cols@;
        cols.push(c);
        assert(crate::filters::strings_view(cols@) =~= crate::filters::strings_view(before).push(c@));
        assert(crate::filters::strings_view(cols@) =~= column_defs(ordered@).take(i + 1));
        i += 1;
    }
    assert(column_defs(ordered@).take(i as int) =~= column_defs(ordered@));
    let mut r = owned("CREATE TABLE IF NOT EXISTS ");
    r.append(table_name);
    r.append(" (");
    append_joined(&mut r, &cols);
    r.append(")");
    r
}

/// The insert statement: positional for all fields in column order
/// (`INSERT INTO <table> VALUES (?, ... 15 times)`) when `ordered` has
/// every field, else with the listed columns.
pub fn build_insert_sql(table_name: &str, ordered: &[usize]) -> (r: String)
    requires
        forall|k: int| 0 <= k < ordered@.len() ==> #[trigger] ordered@[k] < FIELD_COUNT,
    ensures
        ordered@.len() == FIELD_COUNT ==> r@ == "INSERT INTO "@ + table_name@ + " VALUES ("@
            + join_comma_space(question_marks(15)) + ")"@,
        ordered@.len() != FIELD_COUNT ==> r@ == "INSERT INTO "@ + table_name@ + " ("@
            + join_comma_space(column_names(ordered@)) + ") VALUES ("@
            + join_comma_space(question_marks(ordered@.len())) + ")"@,
{
    let mut marks: Vec<String> = Vec::new();
    let n: usize = if ordered.len() == FIELD_COUNT { FIELD_COUNT } else { ordered.len() };
    let mut k: usize = 0;
    while k < n
        invariant
            k <= n,
            crate::filters::strings_view(marks@) == question_marks(n as nat).take(k as int),
        decreases n - k,
    {
        let q = owned("?");
        let ghost before = marks@;
        marks.push(q);
        assert(crate::filters::strings_view(marks@) =~= crate::filters::strings_view(before).push(q@));
        k += 1;
        assert(crate::filters::strings_view(marks@) =~= question_marks(n as nat).take(k as int));
    }
    assert(question_marks(n as nat).take(k as int) =~= question_marks(n as nat));
    let mut r = owned("INSERT INTO ");
    r.append(table_name);
    if ordered.len() == FIELD_COUNT {
        r.append(" VALUES (");
        append_joined(&mut r, &marks);
        r.append(")");
        return r;
    }
    let mut cols: Vec<String> = Vec::new();
    let mut i: usize = 0;
    while i < ordered.len()
        invariant
            i <= ordered.len(),
            forall|k: int| 0 <= k < ordered@.len() ==> #[trigger] ordered@[k] < FIELD_COUNT,
            crate::filters::strings_view(cols@) == column_names(ordered@).take(i as int),
        decreases ordered.len() - i,
    {
        let c = owned(field_name_at(ordered[i]));
        let ghost before = cols@;
        cols.push(c);
        assert(crate::filters::strings_view(cols@) =~= crate::filters::strings_view(before).push(c@));
        assert(crate::filters::strings_view(cols@) =~= column_names(ordered@).take(i + 1));
        i += 1;
    }
    assert(column_names(ordered@).take(i as int) =~= column_names(ordered@));
    r.append(" (");
    append_joined(&mut r, &cols);
    r.append(") VALUES (");
    append_joined(&mut r, &marks);
    r.append(")");
    r
}

/// After counting one more inserted row, the open transaction is
/// committed when the count reaches a multiple of the batch size.
pub fn batch_commit_due(rows: u64, batch_size: u64) -> (b: bool)
    requires
        batch_size > 0,
    ensures
        b == (rows % batch_size == 0),
{
    rows % batch_size == 0
}

/// The statement run on the table before the export, and whether its
/// failure stops the export: with `overwrite` the table is dropped (a
/// failure is an error); otherwise, unless `append`, its rows are deleted
/// (a failure, as for a table that does not exist yet, is ignored); with
/// `append` and no `overwrite` nothing is run.
pub fn prepare_table_sql(table_name: &str, overwrite: bool, append: bool) -> (r: Option<(String, bool)>)
    ensures
        overwrite ==> (r matches Some((sql, fatal)) && sql@ == "DROP TABLE IF EXISTS "@ + table_name@ && fatal),
        !overwrite && !append ==> (r matches Some((sql, fatal)) && sql@ == "DELETE FROM "@ + table_name@ && !fatal),
        !overwrite && append ==> r is None,
{
    if overwrite {
        let mut sql = owned("DROP TABLE IF EXISTS ");
        sql.append(table_name);
        Some((sql, true))
    } else if !append {
        let mut sql = owned("DELETE FROM ");
        sql.append(table_name);
        Some((sql, false))
    } else {
        None
    }
}

} // verus!
