//! The text of the script around the data: header, prefix and postfix, and
//! the statements that create tables, views, routines and triggers.

use vstd::prelude::*;
use vstd::string::*;

verus! {

/// The kinds of schema object that a script creates.
#[derive(Debug, Clone, Copy, PartialEq, Eq, Structural)]
pub enum ObjectKind {
    Table,
    View,
    Procedure,
    Function,
    Trigger,
}

/// How a kind is called in the comment above a definition.
pub open spec fn kind_label(kind: ObjectKind) -> Seq<char> {
    match kind {
        ObjectKind::Table => "table"@,
        ObjectKind::View => "view"@,
        ObjectKind::Procedure => "stored procedure"@,
        ObjectKind::Function => "function"@,
        ObjectKind::Trigger => "trigger"@,
    }
}

impl ObjectKind {
    /// How the kind is called in the comment above a definition.
    pub fn label(&self) -> (text: &'static str)
        ensures
            text@ == kind_label(*self),
    {
        match self {
            ObjectKind::Table => "table",
            ObjectKind::View => "view",
            ObjectKind::Procedure => "stored procedure",
            ObjectKind::Function => "function",
            ObjectKind::Trigger => "trigger",
        }
    }
}

/// A table or a view, with the statement that creates it.
#[derive(Debug, Clone, PartialEq, Eq)]
pub struct Definition {
    pub name: String,
    pub ddl: String,
}

/// A stored procedure, a function or a trigger: the statement that creates
/// it and the settings under which it was created.
#[derive(Debug, Clone, PartialEq, Eq)]
pub struct Routine {
    pub name: String,
    pub sql_mode: String,
    pub ddl: String,
    pub character_set: String,
    pub collation: String,
    pub db_collation: String,
}

/// The comment that names the object, then its statement as it is, ended
/// by a semicolon.
pub open spec fn definition_text(kind: ObjectKind, d: Definition) -> Seq<char> {
    "-- Extract DDL for "@ + kind_label(kind) + " "@ + d.name@ + "\n"@ + d.ddl@ + ";\n"@
}

/// The definitions one after the other.
pub open spec fn definitions_text(kind: ObjectKind, all: Seq<Definition>) -> Seq<char>
    decreases all.len(),
{
    if all.len() == 0 {
        Seq::empty()
    } else {
        definitions_text(kind, all.drop_last()) + definition_text(kind, all.last())
    }
}

/// The comments that name the routine and its settings, then its statement
/// as it is between two changes of the delimiter, so that the semicolons in
/// its body end nothing.
pub open spec fn routine_text(kind: ObjectKind, r: Routine) -> Seq<char> {
    "-- Extract DDL for "@ + kind_label(kind) + " "@ + r.name@ + "\n"@ + "-- SQL Mode "@
        + r.sql_mode@ + "\n"@ + "-- Character Set "@ + r.character_set@ + "\n"@ + "-- Collation "@
        + r.collation@ + "\n"@ + "-- Database Collation "@ + r.db_collation@ + "\n"@
        + "DELIMITER ;;\n"@ + r.ddl@ + ";;\n"@ + "DELIMITER ;\n"@
}

/// The routines one after the other.
pub open spec fn routines_text(kind: ObjectKind, all: Seq<Routine>) -> Seq<char>
    decreases all.len(),
{
    if all.len() == 0 {
        Seq::empty()
    } else {
        routines_text(kind, all.drop_last()) + routine_text(kind, all.last())
    }
}

fn write_definition(kind: ObjectKind, d: &Definition) -> (text: String)
    ensures
        text@ == definition_text(kind, *d),
{
    let mut text = String::from_str("-- Extract DDL for ");
    text.append(kind.label());
    text.append(" ");
    text.append(d.name.as_str());
    text.append("\n");
    text.append(d.ddl.as_str());
    text.append(";\n");
    text
}

fn export_definitions(kind: ObjectKind, all: &Vec<Definition>) -> (text: String)
    ensures
        text@ == definitions_text(kind, all@),
{
    let mut text = String::new();
    let mut k: usize = 0;
    while k < all.len()
        invariant
            k <= all.len(),
            text@ == definitions_text(kind, all@.take(k as int)),
        decreases all.len() - k,
    {
        text.append(write_definition(kind, &all[k]).as_str());
        proof {
            assert(all@.take(k + 1).drop_last() =~= all@.take(k as int));
            assert(all@.take(k + 1).last() == all@[k as int]);
        }
        k += 1;
    }
    proof {
        assert(all@.take(k as int) =~= all@);
    }
    text
}

fn write_routine(kind: ObjectKind, r: &Routine) -> (text: String)
    ensures
        text@ == routine_text(kind, *r),
{
    let mut text = String::from_str("-- Extract DDL for ");
    text.append(kind.label());
    text.append(" ");
    text.append(r.name.as_str());
    text.append("\n");
    text.append("-- SQL Mode ");
    text.append(r.sql_mode.as_str());
    text.append("\n");
    text.append("-- Character Set ");
    text.append(r.character_set.as_str());
    text.append("\n");
    text.append("-- Collation ");
    text.append(r.collation.as_str());
    text.append("\n");
    text.append("-- Database Collation ");
    text.append(r.db_collation.as_str());
    text.append("\n");
    text.append("DELIMITER ;;\n");
    text.append(r.ddl.as_str());
    text.append(";;\n");
    text.append("DELIMITER ;\n");
    text
}

fn export_routines(kind: ObjectKind, all: &Vec<Routine>) -> (text: String)
    ensures
        text@ == routines_text(kind, all@),
{
    let mut text = String::new();
    let mut k: usize = 0;
    while k < all.len()
        invariant
            k <= all.len(),
            text@ == routines_text(kind, all@.take(k as int)),
        decreases all.len() - k,
    {
        text.append(write_routine(kind, &all[k]).as_str());
        proof {
            assert(all@.take(k + 1).drop_last() =~= all@.take(k as int));
            assert(all@.take(k + 1).last() == all@[k as int]);
        }
        k += 1;
    }
    proof {
        assert(all@.take(k as int) =~= all@);
    }
    text
}

/// The statements that create the tables, in the order given.
pub fn export_tables(tables: &Vec<Definition>) -> (text: String)
    ensures
        text@ == definitions_text(ObjectKind::Table, tables@),
{
    export_definitions(ObjectKind::Table, tables)
}

/// The statements that create the views, in the order given.
pub fn export_views(views: &Vec<Definition>) -> (text: String)
    ensures
        text@ == definitions_text(ObjectKind::View, views@),
{
    export_definitions(ObjectKind::View, views)
}

/// The statements that create the stored procedures.
pub fn export_stored_procs(procedures: &Vec<Routine>) -> (text: String)
    ensures
        text@ == routines_text(ObjectKind::Procedure, procedures@),
{
    export_routines(ObjectKind::Procedure, procedures)
}

/// The statements that create the functions.
pub fn export_functions(functions: &Vec<Routine>) -> (text: String)
    ensures
        text@ == routines_text(ObjectKind::Function, functions@),
{
    export_routines(ObjectKind::Function, functions)
}

/// The statements that create the triggers.
pub fn export_triggers(triggers: &Vec<Routine>) -> (text: String)
    ensures
        text@ == routines_text(ObjectKind::Trigger, triggers@),
{
    export_routines(ObjectKind::Trigger, triggers)
}

/// The lines at the head of a script.
pub open spec fn header_text(schema: Seq<char>, url: Seq<char>, created_at: Seq<char>) -> Seq<char> {
    "-- -----------------------------------------------------------------------------------------\n"@
        + "-- Database Dump Tool v0.3.1\n"@ + "-- https://github.com/wcherry/dbdump\n"@ + "-- \n"@
        + "-- Created at "@ + created_at + "\n"@ + "-- Schema: "@ + schema + "\n"@ + "-- URL: "@
        + url + "\n"@
        + "-- -----------------------------------------------------------------------------------------\n"@
}

/// The comment at the head of a script: the tool, the time at which the
/// script is made, the schema and where it was read from.
pub fn write_header(schema: &String, url: &String, created_at: &str) -> (text: String)
    ensures
        text@ == header_text(schema@, url@, created_at@),
{
    let mut text = String::from_str(
        "-- -----------------------------------------------------------------------------------------\n",
    );
    text.append("-- Database Dump Tool v0.3.1\n");
    text.append("-- https://github.com/wcherry/dbdump\n");
    text.append("-- \n");
    text.append("-- Created at ");
    text.append(created_at);
    text.append("\n");
    text.append("-- Schema: ");
    text.append(schema.as_str());
    text.append("\n");
    text.append("-- URL: ");
    text.append(url.as_str());
    text.append("\n");
    text.append(
        "-- -----------------------------------------------------------------------------------------\n",
    );
    text
}

/// The schema that the script fills: the target where one is given, the
/// source otherwise.
pub open spec fn schema_in_use(source_schema: Seq<char>, target_schema: Option<Seq<char>>) -> Seq<char> {
    match target_schema {
        Some(target) => target,
        None => source_schema,
    }
}

/// The statements before the definitions.
pub open spec fn prefix_text(schema: Seq<char>, create_schema: bool, disable_check: bool) -> Seq<char> {
    (if create_schema {
        "create schema if not EXISTS "@ + schema + ";\n"@
    } else {
        Seq::empty()
    }) + "use "@ + schema + ";\n"@ + (if disable_check {
        "SET FOREIGN_KEY_CHECKS=0;\n"@
    } else {
        Seq::empty()
    })
}

/// The statements before the definitions: the schema is created where that
/// is asked for and then selected, and the foreign-key checks are switched
/// off where that is asked for.
pub fn write_prefix(
    source_schema: &String,
    target_schema: Option<String>,
    create_schema: bool,
    disable_check: bool,
) -> (text: String)
    ensures
        text@ == prefix_text(
            schema_in_use(source_schema@, target_schema.deep_view()),
            create_schema,
            disable_check,
        ),
{
    let schema = match target_schema {
        Some(target) => target,
        None => source_schema.clone(),
    };
    let mut text = String::new();
    if create_schema {
        text.append("create schema if not EXISTS ");
        text.append(schema.as_str());
        text.append(";\n");
    }
    text.append("use ");
    text.append(schema.as_str());
    text.append(";\n");
    if disable_check {
        text.append("SET FOREIGN_KEY_CHECKS=0;\n");
    }
    proof {
        assert(text@ =~= prefix_text(schema@, create_schema, disable_check));
    }
    text
}

/// The statements after the data.
pub open spec fn postfix_text(disable_check: bool) -> Seq<char> {
    if disable_check {
        "SET FOREIGN_KEY_CHECKS=1;\n"@
    } else {
        Seq::empty()
    }
}

/// The statements after the data: the foreign-key checks are switched on
/// again where they were switched off.
pub fn write_postfix(disable_check: bool) -> (text: String)
    ensures
        text@ == postfix_text(disable_check),
{
    if disable_check {
        String::from_str("SET FOREIGN_KEY_CHECKS=1;\n")
    } else {
        String::new()
    }
}

} // verus!
