//! The row marshaller's decision table: which JSON shape a dialect-native
//! column type maps to. The classification is verified here; the
//! surrounding application extracts the values and builds the JSON.

use vstd::prelude::*;
use crate::text::str_eq;

verus! {

/// The JSON shape a column's value takes.
#[derive(Clone, Copy, Debug, PartialEq, Eq, Structural)]
pub enum ColumnKind {
    /// 32-bit integer column: JSON number.
    SmallInt,
    /// 64-bit integer column: JSON number.
    BigInt,
    /// Floating-point column: JSON number.
    Float,
    /// Fixed-point column: JSON string preserving precision.
    Decimal,
    /// Character column: JSON string.
    Text,
    /// Boolean column: JSON boolean.
    Boolean,
    /// Date column: JSON string, ISO-8601.
    Date,
    /// Timestamp column: JSON string, ISO-8601.
    DateTime,
    /// Native JSON column: passed through.
    Json,
    /// Anything else: best-effort JSON string, null on failure.
    Other,
}

/// The dialect type name table, covering both Postgres and MySQL names.
pub open spec fn classify_spec(name: Seq<char>) -> ColumnKind {
    if name == "INT2"@ || name == "INT4"@ || name == "SMALLINT"@ || name == "INT"@ || name
        == "MEDIUMINT"@ || name == "TINYINT"@ {
        ColumnKind::SmallInt
    } else if name == "INT8"@ || name == "BIGINT"@ {
        ColumnKind::BigInt
    } else if name == "FLOAT4"@ || name == "FLOAT8"@ || name == "FLOAT"@ || name == "DOUBLE"@ {
        ColumnKind::Float
    } else if name == "NUMERIC"@ || name == "DECIMAL"@ || name == "NEWDECIMAL"@ {
        ColumnKind::Decimal
    } else if name == "TEXT"@ || name == "VARCHAR"@ || name == "CHAR"@ || name == "BPCHAR"@
        || name == "NAME"@ || name == "LONGTEXT"@ {
        ColumnKind::Text
    } else if name == "BOOL"@ {
        ColumnKind::Boolean
    } else if name == "DATE"@ {
        ColumnKind::Date
    } else if name == "TIMESTAMP"@ || name == "TIMESTAMPTZ"@ || name == "DATETIME"@ {
        ColumnKind::DateTime
    } else if name == "JSON"@ || name == "JSONB"@ {
        ColumnKind::Json
    } else {
        ColumnKind::Other
    }
}

/// Classifies a dialect-native type name.
pub fn classify_db_type(name: &str) -> (k: ColumnKind)
    ensures
        k == classify_spec(name@),
{
    if str_eq(name, "INT2") || str_eq(name, "INT4") || str_eq(name, "SMALLINT")
        || str_eq(name, "INT") || str_eq(name, "MEDIUMINT") || str_eq(
        name,
        "TINYINT",
    ) {
        ColumnKind::SmallInt
    } else if str_eq(name, "INT8") || str_eq(name, "BIGINT") {
        ColumnKind::BigInt
    } else if str_eq(name, "FLOAT4") || str_eq(name, "FLOAT8") || str_eq(
        name,
        "FLOAT",
    ) || str_eq(name, "DOUBLE") {
        ColumnKind::Float
    } else if str_eq(name, "NUMERIC") || str_eq(name, "DECIMAL") || str_eq(
        name,
        "NEWDECIMAL",
    ) {
        ColumnKind::Decimal
    } else if str_eq(name, "TEXT") || str_eq(name, "VARCHAR") || str_eq(
        name,
        "CHAR",
    ) || str_eq(name, "BPCHAR") || str_eq(name, "NAME") || str_eq(
        name,
        "LONGTEXT",
    ) {
        ColumnKind::Text
    } else if str_eq(name, "BOOL") {
        ColumnKind::Boolean
    } else if str_eq(name, "DATE") {
        ColumnKind::Date
    } else if str_eq(name, "TIMESTAMP") || str_eq(name, "TIMESTAMPTZ") || str_eq(
        name,
        "DATETIME",
    ) {
        ColumnKind::DateTime
    } else if str_eq(name, "JSON") || str_eq(name, "JSONB") {
        ColumnKind::Json
    } else {
        ColumnKind::Other
    }
}

} // verus!
