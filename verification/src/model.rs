//! The table definitions that the generators read.
//!
//! A column default is held as the SQL text of the default value, which is
//! all that the generators read of it.

use vstd::prelude::*;

verus! {

/// Parameter-free SQL column types.
#[derive(Clone, Copy, Debug, PartialEq, Eq, Structural)]
pub enum SimpleColumnType {
    SmallInt,
    Integer,
    BigInt,
    Real,
    DoublePrecision,
    Text,
    Boolean,
    Date,
    Time,
    Timestamp,
    Timestamptz,
    Interval,
    Bytea,
    Uuid,
    Json,
    Inet,
    Cidr,
    Macaddr,
    Xml,
}

/// A named integer enum variant.
#[derive(Clone, Debug)]
pub struct NumValue {
    pub name: String,
    pub value: i64,
}

/// The variants of an enum column type.
#[derive(Clone, Debug)]
pub enum EnumValues {
    String(Vec<String>),
    Integer(Vec<NumValue>),
}

/// Parameterised SQL column types.
#[derive(Clone, Debug)]
pub enum ComplexColumnType {
    Varchar { length: u32 },
    Numeric { precision: u32, scale: u32 },
    Char { length: u32 },
    Custom { custom_type: String },
    Enum { name: String, values: EnumValues },
}

/// The SQL type of a column.
#[derive(Clone, Debug)]
pub enum ColumnType {
    Simple(SimpleColumnType),
    Complex(ComplexColumnType),
}

/// A table column; `default` is the SQL text of its default value.
#[derive(Clone, Debug)]
pub struct ColumnDef {
    pub name: String,
    pub column_type: ColumnType,
    pub nullable: bool,
    pub default: Option<String>,
}

/// Referential actions of a foreign key.
#[derive(Clone, Copy, Debug, PartialEq, Eq, Structural)]
pub enum ReferenceAction {
    Cascade,
    Restrict,
    SetNull,
    SetDefault,
    NoAction,
}

/// Table-level constraints.
#[derive(Clone, Debug)]
pub enum TableConstraint {
    PrimaryKey { auto_increment: bool, columns: Vec<String> },
    Unique { name: Option<String>, columns: Vec<String> },
    ForeignKey {
        columns: Vec<String>,
        ref_table: String,
        ref_columns: Vec<String>,
        on_delete: Option<ReferenceAction>,
        on_update: Option<ReferenceAction>,
    },
    Check,
    Index { name: Option<String>, columns: Vec<String> },
}

/// A table definition.
#[derive(Clone, Debug)]
pub struct TableDef {
    pub name: String,
    pub description: Option<String>,
    pub columns: Vec<ColumnDef>,
    pub constraints: Vec<TableConstraint>,
}

/// The character sequence of an optional string.
pub open spec fn opt_view(o: Option<String>) -> Option<Seq<char>> {
    match o {
        Some(s) => Some(s@),
        None => None,
    }
}

} // verus!
