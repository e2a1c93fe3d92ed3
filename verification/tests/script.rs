use dbdump::script::{export_functions, export_stored_procs, export_tables, export_triggers,
    export_views, write_header, write_postfix, write_prefix, Definition, ObjectKind, Routine};

fn definition(name: &str, ddl: &str) -> Definition {
    Definition { name: name.to_string(), ddl: ddl.to_string() }
}

fn routine(name: &str, ddl: &str) -> Routine {
    Routine {
        name: name.to_string(),
        sql_mode: "STRICT_TRANS_TABLES".to_string(),
        ddl: ddl.to_string(),
        character_set: "utf8mb4".to_string(),
        collation: "utf8mb4_general_ci".to_string(),
        db_collation: "utf8mb4_0900_ai_ci".to_string(),
    }
}

#[test]
fn tables_are_written_in_the_order_given() {
    let tables = vec![
        definition("customers", "CREATE TABLE `customers` (`id` int)"),
        definition("orders", "CREATE TABLE `orders` (`id` int)"),
    ];
    assert_eq!(
        export_tables(&tables),
        "-- Extract DDL for table customers\nCREATE TABLE `customers` (`id` int);\n-- Extract DDL for table orders\nCREATE TABLE `orders` (`id` int);\n"
    );
}

#[test]
fn no_tables_give_no_text() {
    assert_eq!(export_tables(&Vec::new()), "");
    assert_eq!(export_views(&Vec::new()), "");
    assert_eq!(export_stored_procs(&Vec::new()), "");
}

#[test]
fn views_are_written_with_their_comment() {
    let views = vec![definition("v", "CREATE VIEW `v` AS select 1")];
    assert_eq!(export_views(&views), "-- Extract DDL for view v\nCREATE VIEW `v` AS select 1;\n");
}

#[test]
fn procedures_stand_between_delimiters() {
    let procedures = vec![routine("p", "CREATE PROCEDURE `p`() BEGIN select 1; END")];
    assert_eq!(
        export_stored_procs(&procedures),
        "-- Extract DDL for stored procedure p\n-- SQL Mode STRICT_TRANS_TABLES\n-- Character Set utf8mb4\n-- Collation utf8mb4_general_ci\n-- Database Collation utf8mb4_0900_ai_ci\nDELIMITER ;;\nCREATE PROCEDURE `p`() BEGIN select 1; END;;\nDELIMITER ;\n"
    );
}

#[test]
fn functions_and_triggers_have_their_own_comment() {
    let one = vec![routine("f", "CREATE FUNCTION f() RETURNS int RETURN 1")];
    assert!(export_functions(&one).starts_with("-- Extract DDL for function f\n-- SQL Mode "));
    assert!(export_triggers(&one).starts_with("-- Extract DDL for trigger f\n-- SQL Mode "));
    assert!(export_triggers(&one).ends_with("DELIMITER ;;\nCREATE FUNCTION f() RETURNS int RETURN 1;;\nDELIMITER ;\n"));
    let two = vec![routine("f", "A"), routine("g", "B")];
    assert_eq!(export_functions(&two).matches("DELIMITER ;;\n").count(), 2);
    assert!(export_functions(&two).contains("DELIMITER ;\n-- Extract DDL for function g\n"));
}

#[test]
fn kinds_have_their_labels() {
    assert_eq!(ObjectKind::Table.label(), "table");
    assert_eq!(ObjectKind::View.label(), "view");
    assert_eq!(ObjectKind::Procedure.label(), "stored procedure");
    assert_eq!(ObjectKind::Function.label(), "function");
    assert_eq!(ObjectKind::Trigger.label(), "trigger");
}

#[test]
fn header_names_tool_time_schema_and_url() {
    let text = write_header(&"shop".to_string(), &"mysql://host/shop".to_string(), "2024-01-02 03:04:05 +00:00");
    assert_eq!(
        text,
        "-- -----------------------------------------------------------------------------------------\n-- Database Dump Tool v0.3.1\n-- https://github.com/wcherry/dbdump\n-- \n-- Created at 2024-01-02 03:04:05 +00:00\n-- Schema: shop\n-- URL: mysql://host/shop\n-- -----------------------------------------------------------------------------------------\n"
    );
}

#[test]
fn prefix_creates_and_selects_the_schema() {
    assert_eq!(
        write_prefix(&"shop".to_string(), None, true, true),
        "create schema if not EXISTS shop;\nuse shop;\nSET FOREIGN_KEY_CHECKS=0;\n"
    );
    assert_eq!(write_prefix(&"shop".to_string(), None, false, false), "use shop;\n");
    assert_eq!(write_prefix(&"shop".to_string(), None, false, true), "use shop;\nSET FOREIGN_KEY_CHECKS=0;\n");
}

#[test]
fn prefix_prefers_the_target_schema() {
    assert_eq!(
        write_prefix(&"shop".to_string(), Some("copy".to_string()), true, false),
        "create schema if not EXISTS copy;\nuse copy;\n"
    );
}

#[test]
fn postfix_switches_the_checks_on_again() {
    assert_eq!(write_postfix(true), "SET FOREIGN_KEY_CHECKS=1;\n");
    assert_eq!(write_postfix(false), "");
}
