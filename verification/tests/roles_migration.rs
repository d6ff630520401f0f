use aqbot_core::migration::m20260627_000001_add_roles::roles_table_columns;
use aqbot_core::migration::m20260628_000001_repair_roles_schema::{
    repair_column, RolesRepair, RolesRepairAction, RolesRepairEvent,
};
use aqbot_core::migration::{roles_table, ColumnKind};

#[test]
fn roles_table_has_its_columns_in_order() {
    assert_eq!(roles_table(), "roles");
    let cols = roles_table_columns();
    let names: Vec<&str> = cols.iter().map(|c| c.name.as_str()).collect();
    assert_eq!(
        names,
        vec![
            "id", "name", "description", "system_prompt", "opening_message",
            "opening_questions_json", "tags_json", "avatar", "avatar_type", "avatar_value",
            "temperature", "top_p", "source_kind", "source_ref", "created_at", "updated_at",
        ]
    );
    assert!(cols[0].primary_key && !cols[0].nullable);
    assert_eq!(cols[5].default_value, Some("[]".to_string()));
    assert_eq!(cols[12].default_value, Some("local".to_string()));
    assert_eq!(cols[10].kind, ColumnKind::Double);
    assert_eq!(cols[14].kind, ColumnKind::BigInteger);
    assert!(cols.iter().filter(|c| c.primary_key).count() == 1);
}

/// Drives the repair against a table that exists or not and has the
/// repair columns marked `true`; returns the names of the columns added.
fn drive(table: bool, present: [bool; 4]) -> Vec<String> {
    let mut m = RolesRepair::new();
    let mut added = Vec::new();
    let mut action = m.step(RolesRepairEvent::Begin);
    let mut asked = 0;
    loop {
        action = match action {
            RolesRepairAction::CheckTable => m.step(RolesRepairEvent::TableExists(table)),
            RolesRepairAction::CheckColumn(name) => {
                assert_eq!(name, repair_column(asked).name);
                let e = RolesRepairEvent::ColumnExists(present[asked]);
                asked += 1;
                m.step(e)
            },
            RolesRepairAction::AddColumn(c) => {
                added.push(c.name.clone());
                m.step(RolesRepairEvent::ColumnAdded)
            },
            RolesRepairAction::Finish => return added,
        };
    }
}

#[test]
fn repair_adds_only_missing_columns() {
    assert_eq!(drive(false, [false; 4]), Vec::<String>::new());
    assert_eq!(drive(true, [true; 4]), Vec::<String>::new());
    assert_eq!(drive(true, [false; 4]), vec!["avatar_type", "avatar_value", "temperature", "top_p"]);
    assert_eq!(drive(true, [true, false, true, false]), vec!["avatar_value", "top_p"]);
}

#[test]
fn repair_columns_match_the_created_table() {
    let created = roles_table_columns();
    for i in 0..4 {
        let c = repair_column(i);
        let same = created.iter().find(|d| d.name == c.name).expect("declared when created");
        assert_eq!((same.kind, same.nullable, same.primary_key), (c.kind, c.nullable, c.primary_key));
        assert_eq!(same.default_value, c.default_value);
    }
}
