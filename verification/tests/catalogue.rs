use sch_hierarchy::catalogue::{tools, ParamKind};
use sch_hierarchy::geometry::{rotation_for_sheet_pin_side, validate_pin_type};
use std::collections::HashSet;

#[test]
fn the_tools_are_all_there() {
    let names: Vec<&str> = tools().iter().map(|t| t.name).collect();
    assert_eq!(
        names,
        vec![
            "add_hierarchical_sheet",
            "edit_sheet",
            "move_sheet",
            "delete_sheet",
            "duplicate_sheet",
            "get_sheet_hierarchy",
            "renumber_sheet_pages",
            "import_sheet_pins",
            "add_sheet_pin",
            "edit_sheet_pin",
            "delete_sheet_pin",
            "validate_sheet_pins",
        ]
    );
    let distinct: HashSet<&str> = names.iter().copied().collect();
    assert_eq!(distinct.len(), names.len());
}

#[test]
fn what_a_tool_requires() {
    let list = tools();
    let required = |name: &str| -> Vec<&str> {
        list.iter()
            .find(|t| t.name == name)
            .expect("tool is there")
            .params
            .iter()
            .filter(|p| p.required)
            .map(|p| p.name)
            .collect()
    };
    assert_eq!(required("add_hierarchical_sheet"), vec!["schematic", "sheet_file"]);
    assert_eq!(required("move_sheet"), vec!["schematic", "sheet_name", "x", "y"]);
    assert_eq!(
        required("add_sheet_pin"),
        vec!["schematic", "sheet_name", "pin_name", "pin_type", "x", "y"]
    );
    assert_eq!(
        required("duplicate_sheet"),
        vec!["schematic", "source_sheet_name", "new_sheet_name", "new_file"]
    );
}

#[test]
fn the_choices_are_what_is_accepted() {
    for tool in tools() {
        for param in &tool.params {
            for choice in &param.choices {
                match param.name {
                    "side" => assert!(rotation_for_sheet_pin_side(choice).is_some()),
                    "pin_type" => assert!(validate_pin_type(choice).is_ok()),
                    other => panic!("{other} has choices"),
                }
            }
            if ["x", "y", "width", "height"].contains(&param.name) {
                assert_eq!(param.kind, ParamKind::Number);
            } else {
                assert_eq!(param.kind, ParamKind::Text);
            }
        }
    }
}
