//! The `roles` table: the columns that creating it gives, and the repair that
//! brings an older `roles` table up to them.
use vstd::prelude::*;

pub mod m20260627_000001_add_roles;
pub mod m20260628_000001_repair_roles_schema;

verus! {

/// The SQL type a column is declared with.
#[derive(Clone, Copy, Debug, PartialEq, Eq, Structural)]
pub enum ColumnKind {
    /// `string()`: a short string.
    Str,
    /// `text()`: a text of any length.
    Text,
    /// `double()`: a double-precision float.
    Double,
    /// `big_integer()`: a 64-bit integer.
    BigInteger,
}

/// A column of the `roles` table.
pub struct RoleColumn {
    pub name: String,
    pub kind: ColumnKind,
    /// `null()` rather than `not_null()`.
    pub nullable: bool,
    pub primary_key: bool,
    /// The literal of its `default(..)`, if it has one.
    pub default_value: Option<String>,
}

/// A column as a value.
pub struct ColumnModel {
    pub name: Seq<char>,
    pub kind: ColumnKind,
    pub nullable: bool,
    pub primary_key: bool,
    pub default_value: Option<Seq<char>>,
}

pub open spec fn opt_text(o: Option<String>) -> Option<Seq<char>> {
    match o {
        Some(s) => Some(s@),
        None => None,
    }
}

impl View for RoleColumn {
    type V = ColumnModel;

    open spec fn view(&self) -> ColumnModel {
        ColumnModel {
            name: self.name@,
            kind: self.kind,
            nullable: self.nullable,
            primary_key: self.primary_key,
            default_value: opt_text(self.default_value),
        }
    }
}

/// The columns, each taken by view.
pub open spec fn column_views(v: Seq<RoleColumn>) -> Seq<ColumnModel> {
    Seq::new(v.len(), |i: int| v[i]@)
}

/// A column with no default that is neither the key nor `not null`, or is.
pub open spec fn plain(name: Seq<char>, kind: ColumnKind, nullable: bool) -> ColumnModel {
    ColumnModel { name, kind, nullable, primary_key: false, default_value: None }
}

/// A `not null` column with a default.
pub open spec fn defaulted(name: Seq<char>, kind: ColumnKind, default: Seq<char>) -> ColumnModel {
    ColumnModel { name, kind, nullable: false, primary_key: false, default_value: Some(default) }
}

/// The name of the table.
pub fn roles_table() -> (r: &'static str)
    ensures
        r@ == "roles"@,
{
    "roles"
}

pub fn column(name: &str, kind: ColumnKind, nullable: bool, default_value: Option<&str>) -> (r:
    RoleColumn)
    ensures
        r@ == (ColumnModel {
            name: name@,
            kind,
            nullable,
            primary_key: false,
            default_value: match default_value {
                Some(d) => Some(d@),
                None => None,
            },
        }),
{
    let d = match default_value {
        Some(d) => Some(String::from_str(d)),
        None => None,
    };
    RoleColumn { name: String::from_str(name), kind, nullable, primary_key: false, default_value: d }
}

} // verus!
