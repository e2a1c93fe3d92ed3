//! What holds of the statements that rows are gathered into.

use crate::insert::{batch, batch_count, exported_data, serialized_row, serialized_rows, statement,
    statements, Column};
use crate::literal::{cast, column_type, RawValue};
use vstd::prelude::*;

verus! {

/// With at most `n` rows in a statement, `m` rows give `m / n` statements,
/// rounded up: the least number of them that can hold every row.
pub proof fn lemma_batch_count_is_ceiling(m: nat, n: nat)
    requires
        n >= 1,
    ensures
        batch_count(m, n) * n >= m,
        batch_count(m, n) * n < m + n,
        m == 0 <==> batch_count(m, n) == 0,
{
    vstd::arithmetic::div_mod::lemma_fundamental_div_mod(m as int, n as int);
    vstd::arithmetic::div_mod::lemma_mod_bound(m as int, n as int);
    vstd::arithmetic::div_mod::lemma_div_pos_is_pos(m as int, n as int);
    let q = (m / n) as int;
    assert((q + 1) * n == q * n + n) by (nonlinear_arith);
    assert(n * q == q * n) by (nonlinear_arith);
    if q == 0 {
        assert(q * n == 0) by (nonlinear_arith)
            requires
                q == 0,
        ;
    }
}

/// Every statement but the last holds exactly `n` rows; the last holds the
/// `m mod n` rows that are left, or `n` where `n` divides the number of
/// rows `m`.
pub proof fn lemma_batch_boundary<R>(rows: Seq<R>, n: nat)
    requires
        n >= 1,
    ensures
        forall|i: int|
            0 <= i < batch_count(rows.len(), n) - 1 ==> (#[trigger] batch(rows, n, i)).len() == n,
        batch_count(rows.len(), n) > 0 ==> batch(rows, n, batch_count(rows.len(), n) - 1).len()
            == (if rows.len() % n == 0 {
            n
        } else {
            rows.len() % n
        }),
{
    let m = rows.len() as int;
    let step = n as int;
    let q = m / step;
    let r = m % step;
    vstd::arithmetic::div_mod::lemma_fundamental_div_mod(m, step);
    vstd::arithmetic::div_mod::lemma_mod_bound(m, step);
    vstd::arithmetic::div_mod::lemma_div_pos_is_pos(m, step);
    assert(step * q == q * step) by (nonlinear_arith);
    assert((q + 1) * step == q * step + step) by (nonlinear_arith);
    assert forall|i: int| 0 <= i < batch_count(rows.len(), n) - 1 implies (#[trigger] batch(
        rows,
        n,
        i,
    )).len() == n by {
        assert(0 <= i * step && (i + 1) * step == i * step + step && (i + 1) * step <= q * step)
            by (nonlinear_arith)
            requires
                0 <= i,
                i + 1 <= q,
                1 <= step,
        ;
    }
    if batch_count(rows.len(), n) > 0 {
        if r == 0 {
            assert((q - 1 + 1) * step == q * step);
            assert((q - 1) * step == q * step - step) by (nonlinear_arith);
        }
    }
}

/// No row is lost and none changes its place: row `j` is row `j mod n` of
/// statement `j / n`.
pub proof fn lemma_batches_hold_every_row<R>(rows: Seq<R>, n: nat, j: int)
    requires
        n >= 1,
        0 <= j < rows.len(),
    ensures
        0 <= j / (n as int) < batch_count(rows.len(), n),
        0 <= j % (n as int) < batch(rows, n, j / (n as int)).len(),
        batch(rows, n, j / (n as int))[j % (n as int)] == rows[j],
{
    let m = rows.len() as int;
    let step = n as int;
    let i = j / step;
    vstd::arithmetic::div_mod::lemma_fundamental_div_mod(j, step);
    vstd::arithmetic::div_mod::lemma_mod_bound(j, step);
    vstd::arithmetic::div_mod::lemma_div_pos_is_pos(j, step);
    vstd::arithmetic::div_mod::lemma_fundamental_div_mod(m, step);
    vstd::arithmetic::div_mod::lemma_mod_bound(m, step);
    vstd::arithmetic::div_mod::lemma_div_is_ordered(j, m, step);
    assert(step * i == i * step) by (nonlinear_arith);
    assert(step * (m / step) == (m / step) * step) by (nonlinear_arith);
    assert((i + 1) * step == i * step + step) by (nonlinear_arith);
    if m % step == 0 {
        assert(i < m / step) by {
            if i >= m / step {
                assert(i * step >= (m / step) * step) by (nonlinear_arith)
                    requires
                        i >= m / step,
                        step >= 1,
                ;
            }
        }
    }
}

/// The writer gives one statement for each batch of rows: as many
/// statements as `batch_count` says, the statement at `i` with the rows of
/// batch `i`.
pub proof fn lemma_statements_follow_batches(
    table: Seq<char>,
    columns: Seq<char>,
    rows: Seq<Seq<char>>,
    n: nat,
    i: int,
)
    requires
        n >= 1,
        0 <= i < batch_count(rows.len(), n),
    ensures
        statements(table, columns, rows, n).len() == batch_count(rows.len(), n),
        statements(table, columns, rows, n)[i] == statement(table, columns, batch(rows, n, i)),
{
}

/// Column `j` has a declared type without a literal form.
pub open spec fn unsupported_column(columns: Seq<Column>, j: int) -> bool {
    0 <= j < columns.len() && column_type(columns[j].declared_type@) is Unknown
}

/// Column `j` is the first with a declared type without a literal form.
pub open spec fn first_unsupported_column(columns: Seq<Column>, j: int) -> bool {
    &&& unsupported_column(columns, j)
    &&& forall|k: int| 0 <= k < j ==> !unsupported_column(columns, k)
}

proof fn lemma_cells_outcome(columns: Seq<Column>, row: Seq<RawValue>, skip_unknown: bool)
    requires
        row.len() <= columns.len(),
    ensures
        (match serialized_row(columns, row, skip_unknown) {
            Ok(cells) => {
                &&& cells.len() == row.len()
                &&& forall|j: int|
                    0 <= j < row.len() ==> cast(columns[j].declared_type@, row[j], skip_unknown)
                        == Ok::<Option<Seq<char>>, Seq<char>>(#[trigger] cells[j])
                &&& skip_unknown || forall|j: int|
                    0 <= j < row.len() ==> !unsupported_column(columns, j)
            },
            Err(t) => {
                &&& !skip_unknown
                &&& exists|j: int|
                    j < row.len() && first_unsupported_column(columns, j) && t
                        == columns[j].declared_type@
            },
        }),
    decreases row.len(),
{
    if row.len() > 0 {
        let last = row.len() - 1;
        lemma_cells_outcome(columns, row.drop_last(), skip_unknown);
        match serialized_row(columns, row.drop_last(), skip_unknown) {
            Ok(cells) => {
                match cast(columns[last].declared_type@, row.last(), skip_unknown) {
                    Ok(cell) => {
                        let all = cells.push(cell);
                        assert forall|j: int| 0 <= j < row.len() implies cast(
                            columns[j].declared_type@,
                            row[j],
                            skip_unknown,
                        ) == Ok::<Option<Seq<char>>, Seq<char>>(#[trigger] all[j]) by {
                            if j < last {
                                assert(row.drop_last()[j] == row[j]);
                                assert(all[j] == cells[j]);
                            }
                        }
                    },
                    Err(t) => {
                        assert(first_unsupported_column(columns, last));
                    },
                }
            },
            Err(t) => {},
        }
    }
}

/// When a row is serialized, and what comes out. It fails exactly where
/// unknown types are not skipped and a column has one, with the name of the
/// first such type; otherwise each cell is serialized by the declared type
/// of its column.
pub proof fn lemma_row_outcome(columns: Seq<Column>, row: Seq<RawValue>, skip_unknown: bool)
    requires
        row.len() == columns.len(),
    ensures
        serialized_row(columns, row, skip_unknown) is Err <==> !skip_unknown && exists|j: int|
            unsupported_column(columns, j),
        forall|j: int|
            !skip_unknown && first_unsupported_column(columns, j) ==> serialized_row(
                columns,
                row,
                skip_unknown,
            ) == Err::<Seq<Option<Seq<char>>>, Seq<char>>(columns[j].declared_type@),
        serialized_row(columns, row, skip_unknown) matches Ok(cells) ==> ({
            &&& cells.len() == row.len()
            &&& forall|j: int|
                0 <= j < row.len() ==> cast(columns[j].declared_type@, row[j], skip_unknown) == Ok::<
                    Option<Seq<char>>,
                    Seq<char>,
                >(#[trigger] cells[j])
        }),
{
    lemma_cells_outcome(columns, row, skip_unknown);
    assert forall|j: int| !skip_unknown && first_unsupported_column(columns, j) implies serialized_row(
        columns,
        row,
        skip_unknown,
    ) == Err::<Seq<Option<Seq<char>>>, Seq<char>>(columns[j].declared_type@) by {
        match serialized_row(columns, row, skip_unknown) {
            Ok(cells) => {
                assert(unsupported_column(columns, j));
            },
            Err(t) => {
                let w = choose|w: int|
                    w < row.len() && first_unsupported_column(columns, w) && t
                        == columns[w].declared_type@;
                if w < j {
                    assert(unsupported_column(columns, w));
                }
                if j < w {
                    assert(unsupported_column(columns, j));
                }
            },
        }
    }
}

/// When the rows of a table are serialized. They fail exactly where there
/// is a row, unknown types are not skipped and a column has one, with the
/// name of the first such type; otherwise every row is serialized.
pub proof fn lemma_rows_outcome(columns: Seq<Column>, rows: Seq<Seq<RawValue>>, skip_unknown: bool)
    requires
        forall|i: int| 0 <= i < rows.len() ==> (#[trigger] rows[i]).len() == columns.len(),
    ensures
        serialized_rows(columns, rows, skip_unknown) is Err <==> rows.len() > 0 && !skip_unknown
            && exists|j: int| unsupported_column(columns, j),
        forall|j: int|
            rows.len() > 0 && !skip_unknown && first_unsupported_column(columns, j)
                ==> serialized_rows(columns, rows, skip_unknown) == Err::<
                Seq<Seq<Option<Seq<char>>>>,
                Seq<char>,
            >(columns[j].declared_type@),
        serialized_rows(columns, rows, skip_unknown) matches Ok(all) ==> ({
            &&& all.len() == rows.len()
            &&& forall|i: int|
                0 <= i < rows.len() ==> serialized_row(columns, rows[i], skip_unknown) == Ok::<
                    Seq<Option<Seq<char>>>,
                    Seq<char>,
                >(#[trigger] all[i])
        }),
    decreases rows.len(),
{
    if rows.len() > 0 {
        let init = rows.drop_last();
        assert forall|i: int| 0 <= i < init.len() implies (#[trigger] init[i]).len()
            == columns.len() by {
            assert(init[i] == rows[i]);
        }
        lemma_rows_outcome(columns, init, skip_unknown);
        lemma_row_outcome(columns, rows.last(), skip_unknown);
        if init.len() > 0 {
            lemma_row_outcome(columns, init[0], skip_unknown);
        }
        match serialized_rows(columns, init, skip_unknown) {
            Ok(done) => {
                match serialized_row(columns, rows.last(), skip_unknown) {
                    Ok(cells) => {
                        let all = done.push(cells);
                        assert forall|i: int| 0 <= i < rows.len() implies serialized_row(
                            columns,
                            rows[i],
                            skip_unknown,
                        ) == Ok::<Seq<Option<Seq<char>>>, Seq<char>>(#[trigger] all[i]) by {
                            if i < init.len() {
                                assert(init[i] == rows[i]);
                                assert(all[i] == done[i]);
                            }
                        }
                    },
                    Err(t) => {},
                }
            },
            Err(t) => {},
        }
    }
}

/// When the data of a table is exported: the export fails exactly where
/// the table has a row, unknown types are not skipped and a column has one.
/// The failure names the first such type.
pub proof fn lemma_export_outcome(
    table: Seq<char>,
    columns: Seq<Column>,
    rows: Seq<Seq<RawValue>>,
    single_row_inserts: bool,
    skip_unknown: bool,
)
    requires
        forall|i: int| 0 <= i < rows.len() ==> (#[trigger] rows[i]).len() == columns.len(),
    ensures
        exported_data(table, columns, rows, single_row_inserts, skip_unknown) is Err <==> rows.len()
            > 0 && !skip_unknown && exists|j: int| unsupported_column(columns, j),
        forall|j: int|
            rows.len() > 0 && !skip_unknown && first_unsupported_column(columns, j)
                ==> exported_data(table, columns, rows, single_row_inserts, skip_unknown) == Err::<
                Seq<char>,
                Seq<char>,
            >(columns[j].declared_type@),
{
    lemma_rows_outcome(columns, rows, skip_unknown);
}

} // verus!
