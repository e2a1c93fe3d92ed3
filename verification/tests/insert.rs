use dbdump::insert::{compute_column_name, export_data, insert_statements, join, max_insert_count,
    serialize_row, write_row, Column, InsertBatch};
use dbdump::literal::{RawValue, UnsupportedType};

fn column(name: &str, declared_type: &str) -> Column {
    Column { name: name.to_string(), declared_type: declared_type.to_string() }
}

fn cells(list: &[Option<&str>]) -> Vec<Option<String>> {
    list.iter().map(|c| c.map(|s| s.to_string())).collect()
}

fn numbered_rows(m: usize) -> Vec<Vec<Option<String>>> {
    (0..m).map(|i| vec![Some(i.to_string())]).collect()
}

fn rows_in(statement: &str) -> usize {
    statement.matches("),\n\t(").count() + 1
}

#[test]
fn three_rows_in_statements_of_two() {
    let rows = vec![
        cells(&[Some("1"), Some("'a'")]),
        cells(&[Some("2"), None]),
        cells(&[Some("3"), Some("'c'")]),
    ];
    let out = insert_statements("t", "`id`,`name`", &rows, 2);
    assert_eq!(
        out,
        vec![
            "INSERT INTO `t` (`id`,`name`) VALUES(1,'a'),\n\t(2,NULL);\n".to_string(),
            "INSERT INTO `t` (`id`,`name`) VALUES(3,'c');\n".to_string(),
        ]
    );
    assert_eq!(rows_in(&out[0]), 2);
    assert_eq!(rows_in(&out[1]), 1);
}

#[test]
fn no_rows_give_no_statement() {
    let out = insert_statements("t", "`id`", &Vec::new(), 100);
    assert_eq!(out, Vec::<String>::new());
}

#[test]
fn one_row_closes_its_statement() {
    let out = insert_statements("t", "`id`", &numbered_rows(1), 100);
    assert_eq!(out, vec!["INSERT INTO `t` (`id`) VALUES(0);\n".to_string()]);
}

#[test]
fn single_row_statements() {
    let out = insert_statements("t", "`id`", &numbered_rows(3), 1);
    assert_eq!(
        out,
        vec![
            "INSERT INTO `t` (`id`) VALUES(0);\n".to_string(),
            "INSERT INTO `t` (`id`) VALUES(1);\n".to_string(),
            "INSERT INTO `t` (`id`) VALUES(2);\n".to_string(),
        ]
    );
}

#[test]
fn rows_that_fill_the_last_statement_exactly() {
    let out = insert_statements("t", "`id`", &numbered_rows(4), 2);
    assert_eq!(
        out,
        vec![
            "INSERT INTO `t` (`id`) VALUES(0),\n\t(1);\n".to_string(),
            "INSERT INTO `t` (`id`) VALUES(2),\n\t(3);\n".to_string(),
        ]
    );
}

#[test]
fn batch_boundary_for_many_sizes() {
    for n in 1..8usize {
        for m in 0..30usize {
            let out = insert_statements("t", "`id`", &numbered_rows(m), n);
            assert_eq!(out.len(), (m + n - 1) / n);
            for (i, statement) in out.iter().enumerate() {
                let expected = if i + 1 < out.len() {
                    n
                } else if m % n == 0 {
                    n
                } else {
                    m % n
                };
                assert_eq!(rows_in(statement), expected);
                assert!(statement.starts_with("INSERT INTO `t` (`id`) VALUES("));
                assert!(statement.ends_with(");\n"));
            }
            let all: String = out.concat();
            for i in 0..m {
                assert!(all.contains(&format!("({}", i)));
            }
        }
    }
}

#[test]
fn a_hundred_and_one_rows_by_default() {
    let out = insert_statements("t", "`id`", &numbered_rows(101), max_insert_count(false));
    assert_eq!(out.len(), 2);
    assert_eq!(rows_in(&out[0]), 100);
    assert_eq!(rows_in(&out[1]), 1);
}

#[test]
fn rows_without_cells_are_passed_over() {
    let rows = vec![cells(&[]), cells(&[Some("1")]), cells(&[]), cells(&[Some("2")]), cells(&[])];
    let out = insert_statements("t", "`id`", &rows, 2);
    assert_eq!(out, vec!["INSERT INTO `t` (`id`) VALUES(1),\n\t(2);\n".to_string()]);
    assert_eq!(insert_statements("t", "", &vec![cells(&[]), cells(&[])], 2), Vec::<String>::new());
}

#[test]
fn max_insert_count_is_one_or_a_hundred() {
    assert_eq!(max_insert_count(true), 1);
    assert_eq!(max_insert_count(false), 100);
}

#[test]
fn row_text_joins_cells_with_commas() {
    assert_eq!(write_row(&cells(&[Some("1"), None, Some("'x'")])), "1,NULL,'x'");
    assert_eq!(write_row(&cells(&[None])), "NULL");
    assert_eq!(write_row(&cells(&[])), "");
}

#[test]
fn join_puts_the_separator_between_parts() {
    let parts = vec!["a".to_string(), "b".to_string(), "c".to_string()];
    assert_eq!(join(&parts, ", "), "a, b, c");
    assert_eq!(join(&parts[..1].to_vec(), ", "), "a");
    assert_eq!(join(&Vec::new(), ", "), "");
}

#[test]
fn column_clause_quotes_each_name() {
    let columns = vec![column("id", "INT"), column("first name", "VARCHAR")];
    assert_eq!(compute_column_name(&columns), "`id`,`first name`");
    assert_eq!(compute_column_name(&vec![column("id", "INT")]), "`id`");
    assert_eq!(compute_column_name(&Vec::new()), "");
}

#[test]
fn writer_opens_fills_and_closes() {
    let mut batch = InsertBatch::new("t".to_string(), "`a`".to_string(), 2);
    assert_eq!(batch.rows(), 0);
    assert_eq!(batch.add_row("1".to_string()), None);
    assert_eq!(batch.rows(), 1);
    assert_eq!(
        batch.add_row("2".to_string()),
        Some("INSERT INTO `t` (`a`) VALUES(1),\n\t(2);\n".to_string())
    );
    assert_eq!(batch.rows(), 0);
    assert_eq!(batch.add_row("3".to_string()), None);
    assert_eq!(batch.finish(), Some("INSERT INTO `t` (`a`) VALUES(3);\n".to_string()));
    assert_eq!(batch.rows(), 0);
    assert_eq!(batch.finish(), None);
}

#[test]
fn writer_never_holds_a_full_statement() {
    let mut batch = InsertBatch::new("t".to_string(), "`a`".to_string(), 3);
    for i in 0..20 {
        batch.add_row(i.to_string());
        assert!(batch.rows() < 3);
    }
}

#[test]
fn serialize_row_goes_by_the_columns() {
    let columns = vec![column("id", "INT"), column("name", "VARCHAR"), column("at", "TIMESTAMP"), column("raw", "BLOB")];
    let row = vec![
        RawValue::Signed(7),
        RawValue::Text("O'Brien".to_string()),
        RawValue::Text("2024-01-02 03:04:05 UTC".to_string()),
        RawValue::Text("xx".to_string()),
    ];
    assert_eq!(
        serialize_row(&columns, &row, false),
        Ok(cells(&[Some("7"), Some("'O''Brien'"), Some("'2024-01-02 03:04:05'"), None]))
    );
}

#[test]
fn serialize_row_fails_on_the_first_unknown_type() {
    let columns = vec![column("id", "INT"), column("shape", "GEOMETRY"), column("doc", "JSON")];
    let row = vec![RawValue::Signed(7), RawValue::Absent, RawValue::Absent];
    assert_eq!(
        serialize_row(&columns, &row, false),
        Err(UnsupportedType { declared_type: "GEOMETRY".to_string() })
    );
    assert_eq!(serialize_row(&columns, &row, true), Ok(cells(&[Some("7"), None, None])));
}

#[test]
fn export_data_writes_comment_and_statements() {
    let columns = vec![column("id", "INT UNSIGNED"), column("name", "VARCHAR")];
    let rows = vec![
        vec![RawValue::Unsigned(1), RawValue::Text("Ann".to_string())],
        vec![RawValue::Unsigned(2), RawValue::Absent],
        vec![RawValue::Unsigned(3), RawValue::Text("O'Brien".to_string())],
    ];
    assert_eq!(
        export_data("people", &columns, &rows, false, false),
        Ok("-- Extracting data for people\nINSERT INTO `people` (`id`,`name`) VALUES(1,'Ann'),\n\t(2,NULL),\n\t(3,'O''Brien');\n".to_string())
    );
    assert_eq!(
        export_data("people", &columns, &rows, true, false),
        Ok("-- Extracting data for people\nINSERT INTO `people` (`id`,`name`) VALUES(1,'Ann');\nINSERT INTO `people` (`id`,`name`) VALUES(2,NULL);\nINSERT INTO `people` (`id`,`name`) VALUES(3,'O''Brien');\n".to_string())
    );
}

#[test]
fn export_data_of_an_empty_table_is_the_comment() {
    let columns = vec![column("id", "INT")];
    assert_eq!(
        export_data("empty", &columns, &Vec::new(), false, false),
        Ok("-- Extracting data for empty\n".to_string())
    );
    assert_eq!(
        export_data("odd", &vec![column("g", "GEOMETRY")], &Vec::new(), false, false),
        Ok("-- Extracting data for odd\n".to_string())
    );
    assert_eq!(
        export_data("bare", &Vec::new(), &vec![Vec::new(), Vec::new()], false, false),
        Ok("-- Extracting data for bare\n".to_string())
    );
}

#[test]
fn export_data_fails_on_an_unknown_type() {
    let columns = vec![column("id", "INT"), column("shape", "GEOMETRY")];
    let rows = vec![vec![RawValue::Signed(1), RawValue::Text("POINT(1 1)".to_string())]];
    assert_eq!(
        export_data("places", &columns, &rows, false, false),
        Err(UnsupportedType { declared_type: "GEOMETRY".to_string() })
    );
    assert_eq!(
        export_data("places", &columns, &rows, false, true),
        Ok("-- Extracting data for places\nINSERT INTO `places` (`id`,`shape`) VALUES(1,NULL);\n".to_string())
    );
}

#[test]
fn export_data_splits_after_a_hundred_rows() {
    let columns = vec![column("id", "BIGINT")];
    let rows: Vec<Vec<RawValue>> = (0..250).map(|i| vec![RawValue::Signed(i)]).collect();
    let text = export_data("big", &columns, &rows, false, false).unwrap();
    assert_eq!(text.matches("INSERT INTO `big` (`id`) VALUES(").count(), 3);
    assert_eq!(text.matches(");\n").count(), 3);
    assert_eq!(text.matches("),\n\t(").count(), 247);
    assert!(text.contains("(99);\nINSERT INTO `big` (`id`) VALUES(100),"));
    assert!(text.ends_with("(249);\n"));
}
