//! Multi-row `INSERT` statements: serialized rows are gathered into
//! statements of at most a given number of rows.

use crate::insert_laws::lemma_batch_boundary;
use crate::literal::{cast, cast_data, RawValue, UnsupportedType};
use vstd::prelude::*;
use vstd::string::*;

verus! {

/// The parts one after the other, with `sep` between each two.
pub open spec fn joined(parts: Seq<Seq<char>>, sep: Seq<char>) -> Seq<char>
    decreases parts.len(),
{
    if parts.len() == 0 {
        Seq::empty()
    } else if parts.len() == 1 {
        parts[0]
    } else {
        joined(parts.drop_last(), sep) + sep + parts.last()
    }
}

/// Joins the parts with `sep` between each two.
pub fn join(parts: &Vec<String>, sep: &str) -> (text: String)
    ensures
        text@ == joined(parts.deep_view(), sep@),
{
    let mut text = String::new();
    let mut k: usize = 0;
    while k < parts.len()
        invariant
            k <= parts.len(),
            text@ == joined(parts.deep_view().take(k as int), sep@),
        decreases parts.len() - k,
    {
        if k > 0 {
            text.append(sep);
        }
        text.append(parts[k].as_str());
        proof {
            let all = parts.deep_view();
            assert(all.take(k + 1).drop_last() =~= all.take(k as int));
            assert(all.take(k + 1).last() == parts[k as int]@);
            assert(text@ =~= joined(all.take(k + 1), sep@));
        }
        k += 1;
    }
    proof {
        assert(parts.deep_view().take(k as int) =~= parts.deep_view());
    }
    text
}

/// A column of a result set: its name and the name of its declared type.
#[derive(Debug, Clone, PartialEq, Eq)]
pub struct Column {
    pub name: String,
    pub declared_type: String,
}

/// A column name as an identifier: between backticks.
pub open spec fn identifier(name: Seq<char>) -> Seq<char> {
    "`"@ + name + "`"@
}

/// The column clause of an `INSERT` statement: the identifiers of the
/// columns, with commas between them.
pub open spec fn column_clause(columns: Seq<Column>) -> Seq<char> {
    joined(columns.map_values(|c: Column| identifier(c.name@)), ","@)
}

/// The column clause for the columns of a result set.
pub fn compute_column_name(columns: &Vec<Column>) -> (clause: String)
    ensures
        clause@ == column_clause(columns@),
{
    let mut names: Vec<String> = Vec::new();
    let mut k: usize = 0;
    while k < columns.len()
        invariant
            k <= columns.len(),
            names.deep_view() == columns@.take(k as int).map_values(|c: Column| identifier(c.name@)),
        decreases columns.len() - k,
    {
        let mut name = String::from_str("`");
        name.append(columns[k].name.as_str());
        name.append("`");
        let ghost earlier = names.deep_view();
        names.push(name);
        proof {
            assert(names.deep_view() =~= earlier.push(identifier(columns[k as int].name@)));
            assert(columns@.take(k + 1) =~= columns@.take(k as int).push(columns[k as int]));
            assert(names.deep_view() =~= columns@.take(k + 1).map_values(
                |c: Column| identifier(c.name@),
            ));
        }
        k += 1;
    }
    proof {
        assert(columns@.take(k as int) =~= columns@);
    }
    join(&names, ",")
}

/// The text of a cell: its literal, or the keyword `NULL`.
pub open spec fn cell_text(cell: Option<Seq<char>>) -> Seq<char> {
    match cell {
        Some(literal) => literal,
        None => "NULL"@,
    }
}

/// The text of a row: the texts of its cells, with commas between them.
pub open spec fn row_text(cells: Seq<Option<Seq<char>>>) -> Seq<char> {
    joined(cells.map_values(|c: Option<Seq<char>>| cell_text(c)), ","@)
}

/// The text of a serialized row as it stands between the brackets of a
/// statement.
pub fn write_row(cells: &Vec<Option<String>>) -> (text: String)
    ensures
        text@ == row_text(cells.deep_view()),
{
    let mut text = String::new();
    let mut k: usize = 0;
    while k < cells.len()
        invariant
            k <= cells.len(),
            text@ == row_text(cells.deep_view().take(k as int)),
        decreases cells.len() - k,
    {
        if k > 0 {
            text.append(",");
        }
        match &cells[k] {
            Some(literal) => text.append(literal.as_str()),
            None => text.append("NULL"),
        }
        proof {
            let all = cells.deep_view();
            let texts = all.take(k + 1).map_values(|c: Option<Seq<char>>| cell_text(c));
            assert(texts.drop_last() =~= all.take(k as int).map_values(
                |c: Option<Seq<char>>| cell_text(c),
            ));
            assert(texts.last() == cell_text(all[k as int]));
            assert(text@ =~= row_text(all.take(k + 1)));
        }
        k += 1;
    }
    proof {
        assert(cells.deep_view().take(k as int) =~= cells.deep_view());
    }
    text
}

/// The text of one statement: the rows of a table, the first after the
/// opening words, each further one after a separator, and the closing
/// bracket after the last.
pub open spec fn statement(table: Seq<char>, columns: Seq<char>, rows: Seq<Seq<char>>) -> Seq<char> {
    "INSERT INTO `"@ + table + "` ("@ + columns + ") VALUES("@ + joined(rows, "),\n\t("@)
        + ");\n"@
}

/// What an `InsertBatch` holds.
pub struct InsertBatchView {
    pub table: Seq<char>,
    pub columns: Seq<char>,
    /// The most rows that a statement may hold.
    pub max_rows: nat,
    /// The rows of the statement that is open; none while no statement is.
    pub pending: Seq<Seq<char>>,
}

/// The writer of the `INSERT` statements of one table. A statement is
/// opened by its first row and closed by the row that fills it, or by
/// `finish`.
pub struct InsertBatch {
    table: String,
    columns: String,
    max_rows: usize,
    pending: Vec<String>,
}

impl View for InsertBatch {
    type V = InsertBatchView;

    closed spec fn view(&self) -> InsertBatchView {
        InsertBatchView {
            table: self.table@,
            columns: self.columns@,
            max_rows: self.max_rows as nat,
            pending: self.pending.deep_view(),
        }
    }
}

impl InsertBatch {
    /// The writer is in order: a statement may hold at least one row, and
    /// the open one is short of being full.
    pub open spec fn wf(&self) -> bool {
        self@.pending.len() < self@.max_rows
    }

    /// A writer for `table` with no statement open.
    pub fn new(table: String, columns: String, max_rows: usize) -> (batch: InsertBatch)
        requires
            max_rows >= 1,
        ensures
            batch.wf(),
            batch@ == (InsertBatchView {
                table: table@,
                columns: columns@,
                max_rows: max_rows as nat,
                pending: Seq::empty(),
            }),
    {
        let batch = InsertBatch { table, columns, max_rows, pending: Vec::new() };
        assert(batch.pending.deep_view() =~= Seq::<Seq<char>>::empty());
        batch
    }

    /// The number of rows in the open statement: fewer than a statement
    /// may hold.
    pub fn rows(&self) -> (n: usize)
        requires
            self.wf(),
        ensures
            n == self@.pending.len(),
            n < self@.max_rows,
    {
        self.pending.len()
    }

    fn close(&mut self) -> (text: String)
        ensures
            text@ == statement(old(self)@.table, old(self)@.columns, old(self)@.pending),
            final(self)@ == (InsertBatchView { pending: Seq::empty(), ..old(self)@ }),
    {
        let mut text = String::from_str("INSERT INTO `");
        text.append(self.table.as_str());
        text.append("` (");
        text.append(self.columns.as_str());
        text.append(") VALUES(");
        let rows = join(&self.pending, "),\n\t(");
        text.append(rows.as_str());
        text.append(");\n");
        self.pending = Vec::new();
        assert(self.pending.deep_view() =~= Seq::<Seq<char>>::empty());
        text
    }

    /// Adds a row. The row that fills the statement closes it, and the text
    /// of the whole statement is handed out.
    pub fn add_row(&mut self, row: String) -> (closed: Option<String>)
        requires
            old(self).wf(),
        ensures
            final(self).wf(),
            final(self)@.table == old(self)@.table,
            final(self)@.columns == old(self)@.columns,
            final(self)@.max_rows == old(self)@.max_rows,
            old(self)@.pending.len() + 1 < old(self)@.max_rows ==> ({
                &&& closed is None
                &&& final(self)@.pending == old(self)@.pending.push(row@)
            }),
            old(self)@.pending.len() + 1 >= old(self)@.max_rows ==> ({
                &&& closed.deep_view() == Some(
                    statement(old(self)@.table, old(self)@.columns, old(self)@.pending.push(row@)),
                )
                &&& final(self)@.pending == Seq::<Seq<char>>::empty()
            }),
    {
        let ghost earlier = self.pending.deep_view();
        self.pending.push(row);
        assert(self.pending.deep_view() =~= earlier.push(row@));
        if self.pending.len() >= self.max_rows {
            Some(self.close())
        } else {
            None
        }
    }

    /// Closes the open statement, if there is one, and hands out its text.
    pub fn finish(&mut self) -> (closed: Option<String>)
        requires
            old(self).wf(),
        ensures
            final(self).wf(),
            final(self)@ == (InsertBatchView { pending: Seq::empty(), ..old(self)@ }),
            closed.deep_view() == (if old(self)@.pending.len() > 0 {
                Some(statement(old(self)@.table, old(self)@.columns, old(self)@.pending))
            } else {
                None
            }),
    {
        if self.pending.len() > 0 {
            Some(self.close())
        } else {
            assert(self.pending.deep_view() =~= Seq::<Seq<char>>::empty());
            None
        }
    }
}

/// The number of statements that `m` rows give when a statement holds at
/// most `n` rows: `m / n`, rounded up.
pub open spec fn batch_count(m: nat, n: nat) -> nat {
    if m % n == 0 {
        m / n
    } else {
        m / n + 1
    }
}

/// The rows of statement `i`: the rows from `i * n` on, up to `n` of them.
pub open spec fn batch<R>(rows: Seq<R>, n: nat, i: int) -> Seq<R> {
    rows.subrange(
        i * n,
        if (i + 1) * n <= rows.len() {
            (i + 1) * n
        } else {
            rows.len() as int
        },
    )
}

/// The statements of a table whose rows read `rows`, with at most `n` rows
/// in each.
pub open spec fn statements(
    table: Seq<char>,
    columns: Seq<char>,
    rows: Seq<Seq<char>>,
    n: nat,
) -> Seq<Seq<char>> {
    Seq::new(batch_count(rows.len(), n), |i: int| statement(table, columns, batch(rows, n, i)))
}

/// The rows that are written: those with at least one cell, as text.
pub open spec fn written_rows(rows: Seq<Seq<Option<Seq<char>>>>) -> Seq<Seq<char>> {
    rows.filter(|r: Seq<Option<Seq<char>>>| r.len() > 0).map_values(
        |r: Seq<Option<Seq<char>>>| row_text(r),
    )
}

proof fn lemma_written_rows_push(rows: Seq<Seq<Option<Seq<char>>>>, row: Seq<Option<Seq<char>>>)
    ensures
        written_rows(rows.push(row)) == (if row.len() > 0 {
            written_rows(rows).push(row_text(row))
        } else {
            written_rows(rows)
        }),
{
    let keep = |r: Seq<Option<Seq<char>>>| r.len() > 0;
    assert(rows.push(row) =~= rows + seq![row]);
    Seq::filter_distributes_over_add(rows, seq![row], keep);
    reveal_with_fuel(Seq::filter, 2);
    assert(seq![row].drop_last() =~= Seq::<Seq<Option<Seq<char>>>>::empty());
    if row.len() > 0 {
        assert(seq![row].filter(keep) =~= seq![row]);
        assert(rows.push(row).filter(keep) =~= rows.filter(keep).push(row));
        assert(written_rows(rows.push(row)) =~= written_rows(rows).push(row_text(row)));
    } else {
        assert(seq![row].filter(keep) =~= Seq::<Seq<Option<Seq<char>>>>::empty());
        assert(rows.push(row).filter(keep) =~= rows.filter(keep));
    }
}

/// The rows from `i * n` up to `(i + 1) * n`.
spec fn chunk(rows: Seq<Seq<char>>, n: int, i: int) -> Seq<Seq<char>> {
    rows.subrange(i * n, (i + 1) * n)
}

proof fn lemma_full_batch(i: int, c: int, n: int)
    requires
        0 <= i < c,
        1 <= n,
    ensures
        0 <= i * n,
        (i + 1) * n == i * n + n,
        (i + 1) * n <= c * n,
        (c + 1) * n == c * n + n,
{
    assert(0 <= i * n) by (nonlinear_arith)
        requires
            0 <= i,
            1 <= n,
    ;
    assert((i + 1) * n == i * n + n) by (nonlinear_arith);
    assert((c + 1) * n == c * n + n) by (nonlinear_arith);
    assert((i + 1) * n <= c * n) by (nonlinear_arith)
        requires
            i + 1 <= c,
            1 <= n,
    ;
}

proof fn lemma_batch_count(c: int, p: int, n: int)
    requires
        0 <= c,
        0 <= p < n,
    ensures
        batch_count((c * n + p) as nat, n as nat) == (if p > 0 {
            c + 1
        } else {
            c
        }),
        0 <= c * n,
{
    assert(0 <= c * n) by (nonlinear_arith)
        requires
            0 <= c,
            0 < n,
    ;
    vstd::arithmetic::div_mod::lemma_fundamental_div_mod_converse(c * n + p, n, c, p);
}

/// The `INSERT` statements for the serialized rows of a table, with at most
/// `max_rows` rows in each. A row without cells is passed over. The rows
/// that are written give as many statements as their number divided by
/// `max_rows`, rounded up; each statement but the last holds `max_rows` rows,
/// and the last holds the rest.
pub fn insert_statements(
    table: &str,
    columns: &str,
    rows: &Vec<Vec<Option<String>>>,
    max_rows: usize,
) -> (out: Vec<String>)
    requires
        max_rows >= 1,
    ensures
        out.deep_view() == statements(
            table@,
            columns@,
            written_rows(rows.deep_view()),
            max_rows as nat,
        ),
        out.len() == batch_count(written_rows(rows.deep_view()).len(), max_rows as nat),
        forall|i: int|
            0 <= i < out.len() ==> (#[trigger] out[i])@ == statement(
                table@,
                columns@,
                batch(written_rows(rows.deep_view()), max_rows as nat, i),
            ),
        forall|i: int|
            0 <= i < out.len() - 1 ==> (#[trigger] batch(
                written_rows(rows.deep_view()),
                max_rows as nat,
                i,
            )).len() == max_rows,
        out.len() > 0 ==> batch(written_rows(rows.deep_view()), max_rows as nat, out.len() - 1).len()
            == (if written_rows(rows.deep_view()).len() % (max_rows as nat) == 0 {
            max_rows as nat
        } else {
            written_rows(rows.deep_view()).len() % (max_rows as nat)
        }),
{
    let mut out: Vec<String> = Vec::new();
    let mut writer = InsertBatch::new(String::from_str(table), String::from_str(columns), max_rows);
    let ghost n = max_rows as int;
    let mut k: usize = 0;
    proof {
        assert(rows.deep_view().take(0) =~= Seq::<Seq<Option<Seq<char>>>>::empty());
        assert(written_rows(rows.deep_view().take(0)) =~= Seq::<Seq<char>>::empty());
        assert(0 * n == 0) by (nonlinear_arith);
        assert(writer@.pending =~= written_rows(rows.deep_view().take(0)).subrange(0, 0));
    }
    while k < rows.len()
        invariant
            k <= rows.len(),
            n == max_rows >= 1,
            writer.wf(),
            writer@.table == table@,
            writer@.columns == columns@,
            writer@.max_rows == max_rows,
            0 <= out.len() * n,
            written_rows(rows.deep_view().take(k as int)).len() == out.len() * n
                + writer@.pending.len(),
            writer@.pending == written_rows(rows.deep_view().take(k as int)).subrange(
                out.len() * n,
                written_rows(rows.deep_view().take(k as int)).len() as int,
            ),
            forall|i: int|
                0 <= i < out.len() ==> (#[trigger] out[i])@ == statement(
                    table@,
                    columns@,
                    chunk(written_rows(rows.deep_view().take(k as int)), n, i),
                ),
        decreases rows.len() - k,
    {
        let ghost before = written_rows(rows.deep_view().take(k as int));
        let ghost after = written_rows(rows.deep_view().take(k + 1));
        let ghost emitted = out@;
        proof {
            assert(rows.deep_view().take(k + 1) =~= rows.deep_view().take(k as int).push(
                rows[k as int].deep_view(),
            ));
            lemma_written_rows_push(rows.deep_view().take(k as int), rows[k as int].deep_view());
        }
        if rows[k].len() > 0 {
            let closed = writer.add_row(write_row(&rows[k]));
            proof {
                assert(after == before.push(row_text(rows[k as int].deep_view())));
                assert forall|i: int| 0 <= i < emitted.len() implies #[trigger] chunk(after, n, i)
                    == chunk(before, n, i) by {
                    lemma_full_batch(i, emitted.len() as int, n);
                    assert(chunk(after, n, i) =~= chunk(before, n, i));
                }
            }
            match closed {
                Some(text) => {
                    out.push(text);
                    proof {
                        let c = emitted.len() as int;
                        lemma_full_batch(c, c + 1, n);
                        assert(chunk(after, n, c) =~= before.subrange(
                            c * n,
                            before.len() as int,
                        ).push(row_text(rows[k as int].deep_view())));
                        assert(writer@.pending =~= after.subrange(
                            (c + 1) * n,
                            after.len() as int,
                        ));
                    }
                },
                None => {
                    proof {
                        let c = emitted.len() as int;
                        assert(writer@.pending =~= after.subrange(c * n, after.len() as int));
                    }
                },
            }
        }
        k += 1;
    }
    proof {
        assert(rows.deep_view().take(k as int) =~= rows.deep_view());
    }
    let ghost all = written_rows(rows.deep_view());
    let ghost full = out.len() as int;
    let ghost pending = writer@.pending;
    let last = writer.finish();
    match last {
        Some(text) => {
            out.push(text);
        },
        None => {},
    }
    proof {
        lemma_batch_count(full, pending.len() as int, n);
        let expected = statements(table@, columns@, all, max_rows as nat);
        assert(out.deep_view().len() == expected.len());
        assert forall|i: int| 0 <= i < expected.len() implies out.deep_view()[i] == expected[i] by {
            if i < full {
                lemma_full_batch(i, full, n);
                assert(batch(all, max_rows as nat, i) =~= chunk(all, n, i));
            } else {
                assert(i == full);
                assert((full + 1) * n == full * n + n) by (nonlinear_arith);
                assert(batch(all, max_rows as nat, i) =~= all.subrange(
                    full * n,
                    all.len() as int,
                ));
            }
        }
        assert(out.deep_view() =~= expected);
        lemma_batch_boundary(all, max_rows as nat);
        assert forall|i: int| 0 <= i < out.len() implies (#[trigger] out[i])@ == statement(
            table@,
            columns@,
            batch(all, max_rows as nat, i),
        ) by {
            assert(out.deep_view()[i] == expected[i]);
        }
    }
    out
}

/// The cells of a row as literals, in order; or the name of the declared
/// type of the first cell that has no literal form.
pub open spec fn serialized_row(columns: Seq<Column>, row: Seq<RawValue>, skip_unknown: bool) -> Result<
    Seq<Option<Seq<char>>>,
    Seq<char>,
>
    decreases row.len(),
{
    if row.len() == 0 {
        Ok(Seq::empty())
    } else {
        match serialized_row(columns, row.drop_last(), skip_unknown) {
            Err(t) => Err(t),
            Ok(cells) => match cast(
                columns[row.len() - 1].declared_type@,
                row.last(),
                skip_unknown,
            ) {
                Err(t) => Err(t),
                Ok(cell) => Ok(cells.push(cell)),
            },
        }
    }
}

/// The rows as literals, in order; or the name of the declared type of the
/// first cell, row by row, that has no literal form.
pub open spec fn serialized_rows(
    columns: Seq<Column>,
    rows: Seq<Seq<RawValue>>,
    skip_unknown: bool,
) -> Result<Seq<Seq<Option<Seq<char>>>>, Seq<char>>
    decreases rows.len(),
{
    if rows.len() == 0 {
        Ok(Seq::empty())
    } else {
        match serialized_rows(columns, rows.drop_last(), skip_unknown) {
            Err(t) => Err(t),
            Ok(done) => match serialized_row(columns, rows.last(), skip_unknown) {
                Err(t) => Err(t),
                Ok(cells) => Ok(done.push(cells)),
            },
        }
    }
}

proof fn lemma_row_failure_stays(columns: Seq<Column>, row: Seq<RawValue>, skip_unknown: bool, k: int)
    requires
        0 <= k <= row.len(),
        serialized_row(columns, row.take(k), skip_unknown) is Err,
    ensures
        serialized_row(columns, row, skip_unknown) == serialized_row(
            columns,
            row.take(k),
            skip_unknown,
        ),
    decreases row.len() - k,
{
    if k < row.len() {
        assert(row.take(k + 1).drop_last() =~= row.take(k));
        lemma_row_failure_stays(columns, row, skip_unknown, k + 1);
    } else {
        assert(row.take(k) =~= row);
    }
}

proof fn lemma_rows_failure_stays(
    columns: Seq<Column>,
    rows: Seq<Seq<RawValue>>,
    skip_unknown: bool,
    k: int,
)
    requires
        0 <= k <= rows.len(),
        serialized_rows(columns, rows.take(k), skip_unknown) is Err,
    ensures
        serialized_rows(columns, rows, skip_unknown) == serialized_rows(
            columns,
            rows.take(k),
            skip_unknown,
        ),
    decreases rows.len() - k,
{
    if k < rows.len() {
        assert(rows.take(k + 1).drop_last() =~= rows.take(k));
        lemma_rows_failure_stays(columns, rows, skip_unknown, k + 1);
    } else {
        assert(rows.take(k) =~= rows);
    }
}

/// Serializes the cells of a row, each by the declared type of its column.
pub fn serialize_row(columns: &Vec<Column>, row: &Vec<RawValue>, skip_unknown_datatypes: bool) -> (outcome:
    Result<Vec<Option<String>>, UnsupportedType>)
    requires
        row.len() == columns.len(),
    ensures
        (match outcome {
            Ok(cells) => serialized_row(columns@, row@, skip_unknown_datatypes) == Ok::<
                Seq<Option<Seq<char>>>,
                Seq<char>,
            >(cells.deep_view()),
            Err(e) => serialized_row(columns@, row@, skip_unknown_datatypes) == Err::<
                Seq<Option<Seq<char>>>,
                Seq<char>,
            >(e.declared_type@),
        }),
{
    let mut cells: Vec<Option<String>> = Vec::new();
    let mut k: usize = 0;
    proof {
        assert(row@.take(0) =~= Seq::<RawValue>::empty());
        assert(cells.deep_view() =~= Seq::<Option<Seq<char>>>::empty());
    }
    while k < row.len()
        invariant
            k <= row.len() == columns.len(),
            serialized_row(columns@, row@.take(k as int), skip_unknown_datatypes) == Ok::<
                Seq<Option<Seq<char>>>,
                Seq<char>,
            >(cells.deep_view()),
        decreases row.len() - k,
    {
        proof {
            assert(row@.take(k + 1).drop_last() =~= row@.take(k as int));
            assert(row@.take(k + 1).last() == row@[k as int]);
        }
        match cast_data(columns[k].declared_type.as_str(), &row[k], skip_unknown_datatypes) {
            Ok(cell) => {
                let ghost earlier = cells.deep_view();
                cells.push(cell);
                assert(cells.deep_view() =~= earlier.push(cell.deep_view()));
            },
            Err(e) => {
                proof {
                    lemma_row_failure_stays(columns@, row@, skip_unknown_datatypes, k + 1);
                }
                return Err(e);
            },
        }
        k += 1;
    }
    proof {
        assert(row@.take(k as int) =~= row@);
    }
    Ok(cells)
}

/// The most rows that a statement holds: one where each row is to have a
/// statement of its own, a hundred otherwise.
pub open spec fn max_rows_per_statement(single_row_inserts: bool) -> nat {
    if single_row_inserts {
        1
    } else {
        100
    }
}

/// The most rows that a statement holds.
pub fn max_insert_count(single_row_inserts: bool) -> (n: usize)
    ensures
        n == max_rows_per_statement(single_row_inserts),
{
    if single_row_inserts {
        1
    } else {
        100
    }
}

/// The rows of a table, each as the sequence of its cells.
pub open spec fn rows_of(rows: Seq<Vec<RawValue>>) -> Seq<Seq<RawValue>> {
    rows.map_values(|r: Vec<RawValue>| r@)
}

/// The script that fills a table: a comment that names the table, then the
/// `INSERT` statements for its rows; or the name of the declared type that
/// has no literal form.
pub open spec fn exported_data(
    table: Seq<char>,
    columns: Seq<Column>,
    rows: Seq<Seq<RawValue>>,
    single_row_inserts: bool,
    skip_unknown: bool,
) -> Result<Seq<char>, Seq<char>> {
    match serialized_rows(columns, rows, skip_unknown) {
        Err(t) => Err(t),
        Ok(cells) => Ok(
            "-- Extracting data for "@ + table + "\n"@ + joined(
                statements(
                    table,
                    column_clause(columns),
                    written_rows(cells),
                    max_rows_per_statement(single_row_inserts),
                ),
                ""@,
            ),
        ),
    }
}

/// Writes the data of one table: every row serialized by the declared
/// types of the columns and gathered into `INSERT` statements. A table
/// without rows gets the comment alone. Nothing is written where a column
/// has a type without a literal form, unless such columns are skipped.
pub fn export_data(
    table: &str,
    columns: &Vec<Column>,
    rows: &Vec<Vec<RawValue>>,
    single_row_inserts: bool,
    skip_unknown_datatypes: bool,
) -> (outcome: Result<String, UnsupportedType>)
    requires
        forall|i: int| 0 <= i < rows.len() ==> (#[trigger] rows[i]).len() == columns.len(),
    ensures
        (match outcome {
            Ok(text) => exported_data(
                table@,
                columns@,
                rows_of(rows@),
                single_row_inserts,
                skip_unknown_datatypes,
            ) == Ok::<Seq<char>, Seq<char>>(text@),
            Err(e) => exported_data(
                table@,
                columns@,
                rows_of(rows@),
                single_row_inserts,
                skip_unknown_datatypes,
            ) == Err::<Seq<char>, Seq<char>>(e.declared_type@),
        }),
{
    let mut cells: Vec<Vec<Option<String>>> = Vec::new();
    let mut k: usize = 0;
    proof {
        assert(rows_of(rows@).take(0) =~= Seq::<Seq<RawValue>>::empty());
        assert(cells.deep_view() =~= Seq::<Seq<Option<Seq<char>>>>::empty());
    }
    while k < rows.len()
        invariant
            k <= rows.len(),
            forall|i: int| 0 <= i < rows.len() ==> (#[trigger] rows[i]).len() == columns.len(),
            serialized_rows(columns@, rows_of(rows@).take(k as int), skip_unknown_datatypes)
                == Ok::<Seq<Seq<Option<Seq<char>>>>, Seq<char>>(cells.deep_view()),
        decreases rows.len() - k,
    {
        proof {
            let all = rows_of(rows@);
            assert(all.take(k + 1).drop_last() =~= all.take(k as int));
            assert(all.take(k + 1).last() == rows[k as int]@);
        }
        match serialize_row(columns, &rows[k], skip_unknown_datatypes) {
            Ok(row) => {
                let ghost earlier = cells.deep_view();
                cells.push(row);
                assert(cells.deep_view() =~= earlier.push(row.deep_view()));
            },
            Err(e) => {
                proof {
                    lemma_rows_failure_stays(
                        columns@,
                        rows_of(rows@),
                        skip_unknown_datatypes,
                        k + 1,
                    );
                }
                return Err(e);
            },
        }
        k += 1;
    }
    proof {
        assert(rows_of(rows@).take(k as int) =~= rows_of(rows@));
    }
    let clause = compute_column_name(columns);
    let blocks = insert_statements(
        table,
        clause.as_str(),
        &cells,
        max_insert_count(single_row_inserts),
    );
    let mut text = String::from_str("-- Extracting data for ");
    text.append(table);
    text.append("\n");
    text.append(join(&blocks, "").as_str());
    Ok(text)
}

} // verus!
