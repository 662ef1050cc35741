use sch_hierarchy::import::{
    count_occupied, import_sheet_pins, import_source, written_side, ImportRequest,
};
use sch_hierarchy::model::{HierarchicalLabel, Sheet, SheetPin};
use sch_hierarchy::refusal::Refusal;

fn mm(v: f64) -> i64 {
    (v * 1e12).round() as i64
}

fn at(v: f64) -> i128 {
    mm(v) as i128
}

fn sheet() -> Sheet {
    Sheet {
        uuid: "uuid-A".to_owned(),
        name: "A".to_owned(),
        file: "a.kicad_sch".to_owned(),
        x: mm(50.0),
        y: mm(50.0),
        width: mm(80.0),
        height: mm(50.0),
        page: None,
        pins: Vec::new(),
    }
}

fn label(text: &str, shape: &str) -> HierarchicalLabel {
    HierarchicalLabel { text: text.to_owned(), shape: Some(shape.to_owned()) }
}

fn onto(side: Option<&str>) -> ImportRequest {
    ImportRequest {
        schematic: "/p/root.kicad_sch".to_owned(),
        sheet_name: "A".to_owned(),
        side: side.map(str::to_owned),
    }
}

fn words(refusal: &Refusal) -> String {
    match refusal {
        Refusal::Message(text) => text.clone(),
        Refusal::InvalidArgument { argument, reason } => format!("{argument}: {reason}"),
        other => panic!("unexpected refusal {other:?}"),
    }
}

fn pin<'a>(sheets: &'a [Sheet], name: &str) -> &'a SheetPin {
    sheets[0].pins.iter().find(|p| p.name == name).expect("pin is there")
}

fn existing(name: &str, x: f64, y: f64, rotation: Option<f64>) -> SheetPin {
    SheetPin {
        name: name.to_owned(),
        pin_type: "input".to_owned(),
        x: at(x),
        y: at(y),
        rotation: rotation.map(mm),
    }
}

#[test]
fn import_sheet_pins_creates_matching_pins_from_labels() {
    let mut sheets = vec![sheet()];
    let labels = vec![label("VIN", "input"), label("GND", "passive")];
    let done = import_sheet_pins(&mut sheets, &onto(None), Some(&labels)).unwrap();
    assert_eq!(done.sheet_uuid, "uuid-A");
    assert_eq!(done.imported, vec!["VIN", "GND"]);
    assert_eq!(sheets[0].pins.len(), 2);
    assert_eq!(pin(&sheets, "VIN").pin_type, "input");
    assert_eq!(pin(&sheets, "GND").pin_type, "passive");
    assert_eq!((pin(&sheets, "VIN").x, pin(&sheets, "VIN").y), (at(130.0), at(52.54)));
}

#[test]
fn import_sheet_pins_skips_already_imported_names() {
    let mut sheets = vec![sheet()];
    let labels = vec![label("VIN", "input")];
    import_sheet_pins(&mut sheets, &onto(None), Some(&labels)).unwrap();
    let done = import_sheet_pins(&mut sheets, &onto(None), Some(&labels)).unwrap();
    assert!(done.imported.is_empty());
    assert_eq!(done.skipped, vec!["VIN"]);
    assert_eq!(sheets[0].pins.len(), 1);
}

#[test]
fn import_sheet_pins_stacks_along_a_top_or_bottom_edge() {
    let mut sheets = vec![sheet()];
    let labels = vec![label("VIN", "input"), label("GND", "passive")];
    let done = import_sheet_pins(&mut sheets, &onto(Some("top")), Some(&labels)).unwrap();
    assert_eq!(written_side(&sheets, "A", &done.imported).unwrap(), Some("top"));
    for name in ["VIN", "GND"] {
        assert_eq!(pin(&sheets, name).rotation, Some(mm(90.0)));
        assert_eq!(pin(&sheets, name).y, at(50.0));
    }
    assert_ne!(pin(&sheets, "VIN").x, pin(&sheets, "GND").x);
    assert!(sheets[0].pins.iter().all(|p| p.x >= at(50.0)));

    let mut below = vec![sheet()];
    import_sheet_pins(&mut below, &onto(Some("bottom")), Some(&labels)).unwrap();
    assert_eq!((pin(&below, "GND").x, pin(&below, "GND").y), (at(55.08), at(100.0)));
    assert_eq!(pin(&below, "GND").rotation, Some(mm(270.0)));
}

#[test]
fn import_sheet_pins_keeps_placing_a_left_or_right_stack_down_the_edge() {
    let mut sheets = vec![sheet()];
    let labels = vec![label("VIN", "input"), label("GND", "passive")];
    import_sheet_pins(&mut sheets, &onto(Some("left")), Some(&labels)).unwrap();
    assert_eq!(pin(&sheets, "VIN").x, at(50.0));
    assert_eq!(pin(&sheets, "VIN").y, at(52.54));
    assert_eq!(pin(&sheets, "GND").y, at(55.08));
    assert_eq!(pin(&sheets, "GND").rotation, Some(mm(180.0)));
}

#[test]
fn import_sheet_pins_reports_no_side_when_it_saved_no_pin() {
    let mut sheets = vec![sheet()];
    let labels = vec![label("VIN", "input")];
    import_sheet_pins(&mut sheets, &onto(Some("top")), Some(&labels)).unwrap();
    let done = import_sheet_pins(&mut sheets, &onto(Some("bottom")), Some(&labels)).unwrap();
    assert!(done.imported.is_empty());
    assert_eq!(done.skipped, vec!["VIN"]);
    assert_eq!(written_side(&sheets, "A", &done.imported).unwrap(), None);
}

#[test]
fn import_sheet_pins_counts_a_pin_whose_rotation_names_no_edge() {
    for odd_rotation in [None, Some(45.0)] {
        let mut sheets = vec![sheet()];
        sheets[0].pins.push(existing("ODD", 50.0, 52.54, odd_rotation));
        let labels = vec![label("VIN", "input")];
        import_sheet_pins(&mut sheets, &onto(Some("left")), Some(&labels)).unwrap();
        assert_eq!(pin(&sheets, "VIN").y, at(55.08));
    }
}

#[test]
fn import_sheet_pins_refuses_a_left_edge_import_that_runs_past_the_corner() {
    let mut sheets = vec![sheet()];
    let mut labels: Vec<HierarchicalLabel> =
        (0..19).map(|n| label(&format!("NET{n}"), "passive")).collect();
    import_sheet_pins(&mut sheets, &onto(Some("left")), Some(&labels)).unwrap();
    assert_eq!(sheets[0].pins.len(), 19);
    assert_eq!(pin(&sheets, "NET18").y, at(98.26));

    labels.push(label("ONE_TOO_MANY", "passive"));
    let refusal = import_sheet_pins(&mut sheets, &onto(Some("left")), Some(&labels)).unwrap_err();
    assert_eq!(
        words(&refusal),
        "The 'left' edge of sheet 'A' holds 19 sheet pins at 2.54 mm apart and already carries 19, so 'ONE_TOO_MANY' and everything after it would be placed past a corner. KiCad clamps such a pin back onto the box, piling the overflow on the corner instead of leaving it where it was written, so the import is refused entire and nothing was written. Enlarge the sheet with edit_sheet, or import onto more than one side."
    );
    assert_eq!(sheets[0].pins.len(), 19, "no pin was written");
}

#[test]
fn import_sheet_pins_refuses_a_top_edge_import_that_runs_past_the_corner() {
    let mut sheets = vec![sheet()];
    let labels: Vec<HierarchicalLabel> =
        (0..32).map(|n| label(&format!("BUS{n}"), "passive")).collect();
    let refusal = import_sheet_pins(&mut sheets, &onto(Some("top")), Some(&labels)).unwrap_err();
    let message = words(&refusal);
    assert!(message.contains("'top' edge") && message.contains("31 sheet pins"));
    assert!(message.contains("so 'BUS31' and"));
    assert_eq!(sheets[0].pins.len(), 0);
}

#[test]
fn import_sheet_pins_stacks_below_the_pins_already_on_that_edge() {
    let mut sheets = vec![sheet()];
    for (name, y) in [("R0", 60.0), ("R1", 70.0), ("R2", 80.0)] {
        sheets[0].pins.push(existing(name, 130.0, y, Some(0.0)));
    }
    assert_eq!(count_occupied(&sheets[0].pins, "right"), 3);
    assert_eq!(count_occupied(&sheets[0].pins, "left"), 0);
    let labels = vec![label("VIN", "input")];
    import_sheet_pins(&mut sheets, &onto(Some("left")), Some(&labels)).unwrap();
    assert_eq!((pin(&sheets, "VIN").x, pin(&sheets, "VIN").y), (at(50.0), at(52.54)));
    let more = vec![label("OUT", "output")];
    import_sheet_pins(&mut sheets, &onto(Some("right")), Some(&more)).unwrap();
    assert_eq!((pin(&sheets, "OUT").x, pin(&sheets, "OUT").y), (at(130.0), at(80.48)));
}

#[test]
fn an_import_that_does_not_fit_below_goes_by_the_count() {
    let mut sheets = vec![sheet()];
    sheets[0].pins.push(existing("LOW", 130.0, 99.0, Some(0.0)));
    let labels = vec![label("A", "input"), label("B", "input")];
    import_sheet_pins(&mut sheets, &onto(Some("right")), Some(&labels)).unwrap();
    assert_eq!(pin(&sheets, "A").y, at(55.08));
    assert_eq!(pin(&sheets, "B").y, at(57.62));
}

#[test]
fn pins_off_the_box_take_no_slot_past_its_end() {
    let mut sheets = vec![sheet()];
    sheets[0].pins.push(existing("ABOVE", 50.0, 0.0, Some(90.0)));
    sheets[0].pins.push(SheetPin {
        x: i128::MAX,
        ..existing("FAR", 0.0, 0.0, None)
    });
    let labels = vec![label("A", "input")];
    import_sheet_pins(&mut sheets, &onto(Some("top")), Some(&labels)).unwrap();
    assert_eq!((pin(&sheets, "A").x, pin(&sheets, "A").y), (at(57.62), at(50.0)));
}

#[test]
fn the_edge_holds_what_the_guard_lets_through() {
    let mut sheets = vec![sheet()];
    sheets[0].height = mm(7.619_999);
    let mut labels: Vec<HierarchicalLabel> =
        (0..3).map(|n| label(&format!("N{n}"), "input")).collect();
    import_sheet_pins(&mut sheets, &onto(None), Some(&labels)).unwrap();
    assert_eq!(sheets[0].pins.len(), 3);
    labels.push(label("N3", "input"));
    let refusal = import_sheet_pins(&mut sheets, &onto(None), Some(&labels)).unwrap_err();
    assert!(words(&refusal).contains("holds 3 sheet pins at 2.54 mm apart and already carries 3"));
}

#[test]
fn import_sheet_pins_refuses_a_side_that_is_not_an_edge() {
    let mut sheets = vec![sheet()];
    let refusal = import_sheet_pins(&mut sheets, &onto(Some("middle")), None).unwrap_err();
    assert!(words(&refusal).starts_with("side: 'middle' is not a sheet edge"));
}

#[test]
fn an_import_needs_the_sheet_and_its_child() {
    let mut sheets = vec![sheet()];
    assert_eq!(import_source(&sheets, &onto(None)).unwrap(), "/p/a.kicad_sch");
    let refusal = import_sheet_pins(&mut sheets, &onto(None), None).unwrap_err();
    assert_eq!(
        words(&refusal),
        "Child file '/p/a.kicad_sch' not found on disk — cannot read its hierarchical labels"
    );
    sheets[0].name = "B".to_owned();
    assert_eq!(words(&import_source(&sheets, &onto(None)).unwrap_err()), "Sheet 'A' not found");
    let labels = vec![label("VIN", "input")];
    let refusal = import_sheet_pins(&mut sheets, &onto(None), Some(&labels)).unwrap_err();
    assert_eq!(words(&refusal), "Sheet 'A' not found");
}

#[test]
fn labels_that_repeat_or_have_an_odd_shape() {
    let mut sheets = vec![sheet()];
    let labels = vec![
        label("N", "weird"),
        HierarchicalLabel { text: "M".to_owned(), shape: None },
        label("N", "input"),
    ];
    let done = import_sheet_pins(&mut sheets, &onto(None), Some(&labels)).unwrap();
    assert_eq!(done.imported, vec!["N", "M"]);
    assert_eq!(done.skipped, vec!["N"]);
    assert_eq!(pin(&sheets, "N").pin_type, "passive");
    assert_eq!(pin(&sheets, "M").pin_type, "passive");
}

#[test]
fn the_written_side_comes_off_the_saved_pin() {
    let mut sheets = vec![sheet()];
    let imported = vec!["VIN".to_owned()];
    assert_eq!(
        written_side(&sheets, "A", &imported).unwrap_err(),
        "pin 'VIN' is not on sheet 'A' in the schematic that was just written"
    );
    sheets[0].pins.push(existing("VIN", 0.0, 0.0, Some(45.0)));
    assert_eq!(written_side(&sheets, "A", &imported).unwrap(), None);
    assert!(written_side(&sheets, "Z", &imported).is_err());
}
