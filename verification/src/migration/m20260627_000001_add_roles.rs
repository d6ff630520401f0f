//! Creating the `roles` table, if it is not there yet; dropping it again.
use vstd::prelude::*;

use super::{column, column_views, defaulted, plain, ColumnKind, ColumnModel, RoleColumn};

verus! {

/// The columns of the `roles` table, in the order in which they are created.
pub open spec fn roles_columns() -> Seq<ColumnModel> {
    seq![
        ColumnModel {
            name: "id"@,
            kind: ColumnKind::Str,
            nullable: false,
            primary_key: true,
            default_value: None,
        },
        plain("name"@, ColumnKind::Str, false),
        plain("description"@, ColumnKind::Text, true),
        plain("system_prompt"@, ColumnKind::Text, false),
        plain("opening_message"@, ColumnKind::Text, true),
        defaulted("opening_questions_json"@, ColumnKind::Text, "[]"@),
        defaulted("tags_json"@, ColumnKind::Text, "[]"@),
        plain("avatar"@, ColumnKind::Str, true),
        plain("avatar_type"@, ColumnKind::Str, true),
        plain("avatar_value"@, ColumnKind::Text, true),
        plain("temperature"@, ColumnKind::Double, true),
        plain("top_p"@, ColumnKind::Double, true),
        defaulted("source_kind"@, ColumnKind::Str, "local"@),
        plain("source_ref"@, ColumnKind::Str, true),
        plain("created_at"@, ColumnKind::BigInteger, false),
        plain("updated_at"@, ColumnKind::BigInteger, false),
    ]
}

/// The columns that `up` creates the table with (`if not exists`); `down`
/// drops the table.
pub fn roles_table_columns() -> (r: Vec<RoleColumn>)
    ensures
        column_views(r@) == roles_columns(),
{
    let mut v: Vec<RoleColumn> = Vec::new();
    let id = RoleColumn {
        name: String::from_str("id"),
        kind: ColumnKind::Str,
        nullable: false,
        primary_key: true,
        default_value: None,
    };
    v.push(id);
    v.push(column("name", ColumnKind::Str, false, None));
    v.push(column("description", ColumnKind::Text, true, None));
    v.push(column("system_prompt", ColumnKind::Text, false, None));
    v.push(column("opening_message", ColumnKind::Text, true, None));
    v.push(column("opening_questions_json", ColumnKind::Text, false, Some("[]")));
    v.push(column("tags_json", ColumnKind::Text, false, Some("[]")));
    v.push(column("avatar", ColumnKind::Str, true, None));
    v.push(column("avatar_type", ColumnKind::Str, true, None));
    v.push(column("avatar_value", ColumnKind::Text, true, None));
    v.push(column("temperature", ColumnKind::Double, true, None));
    v.push(column("top_p", ColumnKind::Double, true, None));
    v.push(column("source_kind", ColumnKind::Str, false, Some("local")));
    v.push(column("source_ref", ColumnKind::Str, true, None));
    v.push(column("created_at", ColumnKind::BigInteger, false, None));
    v.push(column("updated_at", ColumnKind::BigInteger, false, None));
    assert(column_views(v@) =~= roles_columns());
    v
}

} // verus!
