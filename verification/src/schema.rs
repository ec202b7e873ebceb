//! The schema that the migration adding the `programs_with_condition`
//! table creates: the table, its columns and its unique index.

use vstd::prelude::*;

use crate::text::{push_str, views};

verus! {

/// The type of a column. Every column here is `NOT NULL`.
#[derive(Debug, Clone, Copy, PartialEq, Eq)]
pub enum ColumnType {
    Uuid,
    String,
    Text,
}

/// A column of a table to create.
pub struct ColumnDef {
    pub name: String,
    pub column_type: ColumnType,
    pub primary_key: bool,
}

/// A table to create.
pub struct TableDef {
    pub name: String,
    pub if_not_exists: bool,
    pub columns: Vec<ColumnDef>,
}

/// An index to create.
pub struct IndexDef {
    pub name: String,
    pub table: String,
    pub columns: Vec<String>,
    pub unique: bool,
    pub if_not_exists: bool,
}

/// A column as a triple of name, type and whether it is the primary key.
pub open spec fn column_view(c: ColumnDef) -> (Seq<char>, ColumnType, bool) {
    (c.name@, c.column_type, c.primary_key)
}

/// The name under which the migration is recorded.
pub fn migration_name() -> (r: String)
    ensures
        r@ == "m20260108_015909_add_programs_with_condition"@,
{
    String::from_str("m20260108_015909_add_programs_with_condition")
}

fn column(name: &str, column_type: ColumnType, primary_key: bool) -> (r: ColumnDef)
    ensures
        column_view(r) == (name@, column_type, primary_key),
{
    ColumnDef { name: String::from_str(name), column_type, primary_key }
}

/// The table `programs_with_condition`, created only where it does not
/// exist: a UUID primary key `id`, a string `name` and a text `github_url`.
pub fn programs_with_condition_table() -> (r: TableDef)
    ensures
        r.name@ == "programs_with_condition"@,
        r.if_not_exists,
        r.columns@.map_values(|c: ColumnDef| column_view(c)) == seq![
            ("id"@, ColumnType::Uuid, true),
            ("name"@, ColumnType::String, false),
            ("github_url"@, ColumnType::Text, false),
        ],
{
    let mut columns: Vec<ColumnDef> = Vec::new();
    columns.push(column("id", ColumnType::Uuid, true));
    columns.push(column("name", ColumnType::String, false));
    columns.push(column("github_url", ColumnType::Text, false));
    let r = TableDef { name: String::from_str("programs_with_condition"), if_not_exists: true, columns };
    assert(r.columns@.map_values(|c: ColumnDef| column_view(c)) =~= seq![
        ("id"@, ColumnType::Uuid, true),
        ("name"@, ColumnType::String, false),
        ("github_url"@, ColumnType::Text, false),
    ]);
    r
}

/// The unique index `idx-programs_cond_github_url` on
/// `programs_with_condition(github_url)`, created only where it does not
/// exist.
pub fn github_url_index() -> (r: IndexDef)
    ensures
        r.name@ == "idx-programs_cond_github_url"@,
        r.table@ == "programs_with_condition"@,
        views(r.columns@) == seq!["github_url"@],
        r.unique,
        r.if_not_exists,
{
    let mut columns: Vec<String> = Vec::new();
    push_str(&mut columns, "github_url");
    IndexDef {
        name: String::from_str("idx-programs_cond_github_url"),
        table: String::from_str("programs_with_condition"),
        columns,
        unique: true,
        if_not_exists: true,
    }
}

} // verus!
