use sch_hierarchy::geometry::{
    rotation_for_sheet_pin_side, sheet_pin_rotation_for, sheet_pin_side_for_rotation,
    validate_pin_type,
};
use sch_hierarchy::model::{Sheet, SheetPin};
use sch_hierarchy::pins::{
    add_sheet_pin, delete_sheet_pin, describe_pin, edit_sheet_pin, read_back_sheet_pin,
    AddPinRequest, EditPinRequest, PinField,
};
use sch_hierarchy::refusal::Refusal;

const UNIT: f64 = 1e12;

fn mm(v: f64) -> i64 {
    (v * UNIT).round() as i64
}

fn at(v: f64) -> i128 {
    mm(v) as i128
}

fn deg(v: f64) -> Option<i64> {
    Some(mm(v))
}

/// The default box: 80 by 50 at (50, 50).
fn sheet(name: &str) -> Sheet {
    Sheet {
        uuid: format!("uuid-{name}"),
        name: name.to_owned(),
        file: "a.kicad_sch".to_owned(),
        x: mm(50.0),
        y: mm(50.0),
        width: mm(80.0),
        height: mm(50.0),
        page: Some("2".to_owned()),
        pins: Vec::new(),
    }
}

fn add(name: &str, x: f64, y: f64, side: Option<&str>) -> AddPinRequest {
    AddPinRequest {
        sheet_name: "A".to_owned(),
        pin_name: name.to_owned(),
        pin_type: "input".to_owned(),
        x: at(x),
        y: at(y),
        side: side.map(str::to_owned),
    }
}

fn edit(name: &str) -> EditPinRequest {
    EditPinRequest {
        sheet_name: "A".to_owned(),
        pin_name: name.to_owned(),
        new_name: None,
        pin_type: None,
        x: None,
        y: None,
        side: None,
    }
}

fn words(refusal: &Refusal) -> String {
    match refusal {
        Refusal::Message(text) => text.clone(),
        Refusal::InvalidArgument { argument, reason } => format!("{argument}: {reason}"),
        Refusal::StaleTarget { message, .. } => message.clone(),
        Refusal::OutcomeUncertain { reason, .. } => reason.clone(),
    }
}

fn pin<'a>(sheets: &'a [Sheet], name: &str) -> &'a SheetPin {
    sheets[0].pins.iter().find(|p| p.name == name).expect("pin is there")
}

#[test]
fn add_sheet_pin_writes_a_rotation_kicad_can_load() {
    let mut sheets = vec![sheet("A")];
    let uuid = add_sheet_pin(&mut sheets, &add("TESTNET", 100.0, 105.0, None)).unwrap();
    assert_eq!(uuid, "uuid-A");
    let written = pin(&sheets, "TESTNET");
    assert_eq!((written.x, written.y), (at(100.0), at(105.0)));
    assert_eq!(written.rotation, deg(0.0));
}

#[test]
fn add_sheet_pin_rejects_duplicate_name() {
    let mut sheets = vec![sheet("A")];
    let request = add("VCC", 90.0, 55.0, None);
    assert!(add_sheet_pin(&mut sheets, &request).is_ok());
    let refusal = add_sheet_pin(&mut sheets, &request).unwrap_err();
    assert_eq!(words(&refusal), "Sheet 'A' already has a pin named 'VCC'");
    assert_eq!(sheets[0].pins.len(), 1);
}

#[test]
fn add_sheet_pin_writes_the_rotation_each_side_selects() {
    let mut sheets = vec![sheet("A")];
    let cases = [
        ("R_PIN", "right", 130.0, 55.0, 0.0),
        ("T_PIN", "top", 60.0, 50.0, 90.0),
        ("L_PIN", "left", 50.0, 60.0, 180.0),
        ("B_PIN", "bottom", 70.0, 100.0, 270.0),
    ];
    for (name, side, x, y, expected_rotation) in cases {
        add_sheet_pin(&mut sheets, &add(name, x, y, Some(side))).unwrap();
        let saved = read_back_sheet_pin(&sheets, "A", name).unwrap();
        assert_eq!(saved.rotation, deg(expected_rotation));
        assert_eq!(describe_pin(&saved).side.as_deref(), Some(side));
    }
}

#[test]
fn add_sheet_pin_refuses_a_position_off_the_named_edge() {
    let mut sheets = vec![sheet("A")];
    let refusal = add_sheet_pin(&mut sheets, &add("STRAY", 60.0, 75.0, Some("top"))).unwrap_err();
    assert_eq!(
        words(&refusal),
        "y: y = 75 is not on the 'top' edge of sheet 'A', which is y = 50. KiCad relocates a sheet pin whose position and side disagree, so the pin would not stay where this call puts it"
    );
    assert_eq!(sheets[0].pins.len(), 0, "a refused call must write nothing");
}

#[test]
fn add_sheet_pin_without_a_side_still_accepts_any_position() {
    let mut sheets = vec![sheet("A")];
    assert!(add_sheet_pin(&mut sheets, &add("LEGACY", 100.0, 105.0, None)).is_ok());
    assert_eq!(pin(&sheets, "LEGACY").rotation, deg(0.0));
}

#[test]
fn add_sheet_pin_refuses_a_position_past_the_end_of_the_named_edge() {
    let mut sheets = vec![sheet("A")];
    let refusal =
        add_sheet_pin(&mut sheets, &add("PAST_END", 130.0, 140.0, Some("right"))).unwrap_err();
    assert_eq!(
        words(&refusal),
        "y: y = 140 is past the end of the 'right' edge of sheet 'A', which runs from y = 50 to 100. KiCad clamps a sheet pin to the nearest corner rather than leaving it off the box, so the pin would not stay where this call puts it"
    );
}

#[test]
fn add_sheet_pin_accepts_a_pin_on_a_corner() {
    let mut sheets = vec![sheet("A")];
    for (name, y) in [("TOP_CORNER", 50.0), ("BOTTOM_CORNER", 100.0)] {
        assert!(add_sheet_pin(&mut sheets, &add(name, 130.0, y, Some("right"))).is_ok());
    }
}

#[test]
fn add_sheet_pin_refuses_a_side_that_is_not_an_edge() {
    let mut sheets = vec![sheet("A")];
    let refusal = add_sheet_pin(&mut sheets, &add("VCC", 130.0, 55.0, Some("north"))).unwrap_err();
    assert_eq!(
        words(&refusal),
        "side: 'north' is not a sheet edge — must be one of: right, left, top, bottom"
    );
}

#[test]
fn add_sheet_pin_takes_the_rotation_from_the_side_not_the_position() {
    let mut sheets = vec![sheet("A")];
    for (name, side, expected_rotation) in [("CORNER_R", "right", 0.0), ("CORNER_T", "top", 90.0)] {
        add_sheet_pin(&mut sheets, &add(name, 130.0, 50.0, Some(side))).unwrap();
        assert_eq!(pin(&sheets, name).rotation, deg(expected_rotation));
        assert_eq!(describe_pin(pin(&sheets, name)).side.as_deref(), Some(side));
    }
}

#[test]
fn add_sheet_pin_reports_the_saved_position_not_the_requested_one() {
    let mut sheets = vec![sheet("A")];
    let request = add("FINE", 130.000_000_4, 55.000_000_4, Some("right"));
    add_sheet_pin(&mut sheets, &request).unwrap();
    // The writer holds six decimal places; this is what comes back off the file.
    sheets[0].pins[0].x = at(130.0);
    sheets[0].pins[0].y = at(55.0);
    let saved = describe_pin(&read_back_sheet_pin(&sheets, "A", "FINE").unwrap());
    assert_eq!((saved.x, saved.y), (at(130.0), at(55.0)));
    assert_ne!((saved.x, saved.y), (request.x, request.y));
}

#[test]
fn add_sheet_pin_rejects_invalid_pin_type() {
    let mut sheets = vec![sheet("A")];
    let mut request = add("VCC", 90.0, 55.0, None);
    request.pin_type = "not_a_type".to_owned();
    let refusal = add_sheet_pin(&mut sheets, &request).unwrap_err();
    assert_eq!(
        words(&refusal),
        "Invalid pin_type 'not_a_type' — must be one of: input, output, bidirectional, tri_state, passive"
    );
}

#[test]
fn add_sheet_pin_refuses_an_unknown_sheet() {
    let mut sheets = vec![sheet("B")];
    let refusal = add_sheet_pin(&mut sheets, &add("VCC", 90.0, 55.0, None)).unwrap_err();
    assert_eq!(words(&refusal), "Sheet 'A' not found");
}

#[test]
fn edit_sheet_pin_accepts_the_position_the_pin_already_has() {
    let mut sheets = vec![sheet("A")];
    add_sheet_pin(&mut sheets, &add("VCC", 20.0, 25.0, None)).unwrap();
    let mut restate = edit("VCC");
    restate.x = Some(at(20.0));
    restate.y = Some(at(25.0));
    edit_sheet_pin(&mut sheets, &restate).unwrap();
    let done = edit_sheet_pin(&mut sheets, &restate).unwrap();
    assert_eq!(done.requested, vec![PinField::Position]);
    assert_eq!(done.changed, vec![]);
}

#[test]
fn edit_sheet_pin_reports_only_the_fields_that_differ() {
    let mut sheets = vec![sheet("A")];
    add_sheet_pin(&mut sheets, &add("CLK", 130.0, 55.0, None)).unwrap();
    let mut request = edit("CLK");
    request.new_name = Some("CLK".to_owned());
    request.pin_type = Some("input".to_owned());
    request.x = Some(at(130.0));
    request.y = Some(at(55.0));
    let done = edit_sheet_pin(&mut sheets, &request).unwrap();
    assert_eq!(done.requested, vec![PinField::Name, PinField::PinType, PinField::Position]);
    assert_eq!(done.changed, vec![]);

    request.pin_type = Some("output".to_owned());
    request.y = Some(at(56.0));
    let done = edit_sheet_pin(&mut sheets, &request).unwrap();
    assert_eq!(done.changed, vec![PinField::PinType, PinField::Position]);
    assert!(edit_sheet_pin(&mut sheets, &request).unwrap().changed.is_empty());
}

#[test]
fn edit_sheet_pin_reports_the_saved_position_not_the_requested_one() {
    let mut sheets = vec![sheet("A")];
    add_sheet_pin(&mut sheets, &add("CLK", 130.0, 55.0, Some("right"))).unwrap();
    let mut request = edit("CLK");
    request.x = Some(at(130.000_000_4));
    request.y = Some(at(60.000_000_4));
    request.side = Some("right".to_owned());
    let done = edit_sheet_pin(&mut sheets, &request).unwrap();
    sheets[0].pins[0].x = at(130.0);
    sheets[0].pins[0].y = at(60.0);
    let saved = describe_pin(&read_back_sheet_pin(&sheets, "A", &done.saved_name).unwrap());
    assert_eq!((saved.x, saved.y), (at(130.0), at(60.0)));
    assert_ne!(Some(saved.x), request.x);
    assert_eq!(saved.side.as_deref(), Some("right"));
}

#[test]
fn edit_sheet_pin_reports_the_name_it_saved_under() {
    let mut sheets = vec![sheet("A")];
    add_sheet_pin(&mut sheets, &add("OLD", 130.0, 55.0, Some("right"))).unwrap();
    let mut request = edit("OLD");
    request.new_name = Some("NEW".to_owned());
    request.pin_type = Some("output".to_owned());
    let done = edit_sheet_pin(&mut sheets, &request).unwrap();
    assert_eq!(done.saved_name, "NEW");
    let saved = describe_pin(&read_back_sheet_pin(&sheets, "A", "NEW").unwrap());
    assert_eq!(saved.name, "NEW");
    assert_eq!(saved.pin_type, "output");
}

#[test]
fn edit_sheet_pin_moves_a_pin_to_another_edge() {
    let mut sheets = vec![sheet("A")];
    add_sheet_pin(&mut sheets, &add("CLK", 130.0, 55.0, None)).unwrap();
    let mut request = edit("CLK");
    request.x = Some(at(65.0));
    request.y = Some(at(100.0));
    request.side = Some("bottom".to_owned());
    let done = edit_sheet_pin(&mut sheets, &request).unwrap();
    let labels: Vec<&str> = done.changed.iter().map(|f| f.label()).collect();
    assert_eq!(labels, vec!["position", "side"]);
    assert_eq!(pin(&sheets, "CLK").rotation, deg(270.0));
}

#[test]
fn edit_sheet_pin_judges_the_side_against_the_position_it_is_given() {
    let mut sheets = vec![sheet("A")];
    add_sheet_pin(&mut sheets, &add("CLK", 130.0, 55.0, None)).unwrap();
    let mut request = edit("CLK");
    request.x = Some(at(65.0));
    request.y = Some(at(50.0));
    request.side = Some("top".to_owned());
    assert!(edit_sheet_pin(&mut sheets, &request).is_ok());
    assert_eq!(pin(&sheets, "CLK").rotation, deg(90.0));

    request.y = Some(at(60.0));
    assert!(edit_sheet_pin(&mut sheets, &request).is_err());
    assert_eq!(pin(&sheets, "CLK").rotation, deg(90.0));
    assert_eq!(pin(&sheets, "CLK").y, at(50.0), "a refused edit leaves the pin as it was");
}

#[test]
fn edit_sheet_pin_refuses_a_side_the_pin_is_not_already_on() {
    let mut sheets = vec![sheet("A")];
    add_sheet_pin(&mut sheets, &add("CLK", 130.0, 55.0, None)).unwrap();
    let mut request = edit("CLK");
    request.side = Some("bottom".to_owned());
    assert!(edit_sheet_pin(&mut sheets, &request).is_err());
    assert_eq!(pin(&sheets, "CLK").rotation, deg(0.0), "nothing was written");
}

#[test]
fn edit_sheet_pin_counts_side_on_its_own_as_a_change() {
    let mut sheets = vec![sheet("A")];
    add_sheet_pin(&mut sheets, &add("CLK", 50.0, 60.0, None)).unwrap();
    let mut request = edit("CLK");
    request.side = Some("left".to_owned());
    let done = edit_sheet_pin(&mut sheets, &request).unwrap();
    assert_eq!(done.changed, vec![PinField::Side]);
    assert_eq!(done.requested, vec![PinField::Side]);
    assert_eq!(pin(&sheets, "CLK").rotation, deg(180.0));
}

#[test]
fn edit_sheet_pin_does_not_count_a_restated_side_as_a_change() {
    let mut sheets = vec![sheet("A")];
    add_sheet_pin(&mut sheets, &add("CLK", 60.0, 100.0, Some("bottom"))).unwrap();
    let mut request = edit("CLK");
    request.side = Some("bottom".to_owned());
    let done = edit_sheet_pin(&mut sheets, &request).unwrap();
    assert_eq!(done.changed, vec![]);
    assert_eq!(done.requested, vec![PinField::Side]);
    assert_eq!(describe_pin(pin(&sheets, "CLK")).side.as_deref(), Some("bottom"));
}

#[test]
fn edit_sheet_pin_renames_and_retypes() {
    let mut sheets = vec![sheet("A")];
    add_sheet_pin(&mut sheets, &add("VCC", 90.0, 55.0, None)).unwrap();
    let mut request = edit("VCC");
    request.new_name = Some("VDD".to_owned());
    request.pin_type = Some("output".to_owned());
    let done = edit_sheet_pin(&mut sheets, &request).unwrap();
    assert_eq!(done.changed, vec![PinField::Name, PinField::PinType]);
    assert!(sheets[0].pins.iter().all(|p| p.name != "VCC"));
    assert_eq!(pin(&sheets, "VDD").pin_type, "output");
}

#[test]
fn edit_sheet_pin_with_no_fields_errors() {
    let mut sheets = vec![sheet("A")];
    add_sheet_pin(&mut sheets, &add("VCC", 90.0, 55.0, None)).unwrap();
    let refusal = edit_sheet_pin(&mut sheets, &edit("VCC")).unwrap_err();
    assert_eq!(
        words(&refusal),
        "No fields to change — provide at least one of: new_name, pin_type, side, x+y"
    );
    // One coordinate alone is no position.
    let mut half = edit("VCC");
    half.x = Some(at(1.0));
    assert!(edit_sheet_pin(&mut sheets, &half).is_err());
}

#[test]
fn edit_sheet_pin_checks_its_arguments_first() {
    let mut sheets = vec![sheet("A")];
    let mut request = edit("VCC");
    assert_eq!(
        words(&edit_sheet_pin(&mut sheets, &request).unwrap_err()),
        "Pin 'VCC' not found on sheet 'A'"
    );
    request.sheet_name = "Z".to_owned();
    assert_eq!(
        words(&edit_sheet_pin(&mut sheets, &request).unwrap_err()),
        "Sheet 'Z' not found"
    );
    request.side = Some("up".to_owned());
    assert!(words(&edit_sheet_pin(&mut sheets, &request).unwrap_err()).starts_with("side: 'up'"));
    request.pin_type = Some("x".to_owned());
    assert!(words(&edit_sheet_pin(&mut sheets, &request).unwrap_err()).starts_with("Invalid pin_type 'x'"));
}

#[test]
fn delete_sheet_pin_removes_it() {
    let mut sheets = vec![sheet("A")];
    add_sheet_pin(&mut sheets, &add("VCC", 90.0, 55.0, None)).unwrap();
    let done = delete_sheet_pin(&mut sheets, "A", "VCC").unwrap();
    assert_eq!((done.sheet_uuid.as_str(), done.index), ("uuid-A", 0));
    assert!(sheets[0].pins.is_empty());
}

#[test]
fn delete_sheet_pin_removes_a_single_pin() {
    let mut sheets = vec![sheet("A")];
    add_sheet_pin(&mut sheets, &add("VCC", 90.0, 55.0, None)).unwrap();
    let mut twin = sheets[0].pins[0].clone();
    twin.x = at(1.0);
    sheets[0].pins.push(twin);
    delete_sheet_pin(&mut sheets, "A", "VCC").unwrap();
    assert_eq!(sheets[0].pins.len(), 1);
    assert_eq!(sheets[0].pins[0].x, at(1.0));
}

#[test]
fn delete_sheet_pin_not_found_errors() {
    let mut sheets = vec![sheet("A")];
    assert_eq!(
        words(&delete_sheet_pin(&mut sheets, "A", "Nope").unwrap_err()),
        "Pin 'Nope' not found on sheet 'A'"
    );
    assert_eq!(
        words(&delete_sheet_pin(&mut sheets, "Z", "Nope").unwrap_err()),
        "Sheet 'Z' not found"
    );
}

#[test]
fn reading_back_says_what_is_missing() {
    let sheets = vec![sheet("A")];
    assert_eq!(
        read_back_sheet_pin(&sheets, "Z", "P").unwrap_err(),
        "sheet 'Z' is not in the schematic that was just written"
    );
    assert_eq!(
        read_back_sheet_pin(&sheets, "A", "P").unwrap_err(),
        "pin 'P' is not on sheet 'A' in the schematic that was just written"
    );
}

#[test]
fn the_rotation_is_the_side() {
    for (side, angle) in [("right", 0.0), ("top", 90.0), ("left", 180.0), ("bottom", 270.0)] {
        assert_eq!(rotation_for_sheet_pin_side(side), deg(angle));
        assert_eq!(sheet_pin_rotation_for(side).unwrap(), mm(angle));
        assert_eq!(sheet_pin_side_for_rotation(deg(angle)), Some(side));
    }
    assert_eq!(rotation_for_sheet_pin_side("north"), None);
    assert_eq!(sheet_pin_side_for_rotation(None), None);
    assert_eq!(sheet_pin_side_for_rotation(deg(45.0)), None);
    assert!(validate_pin_type("tri_state").is_ok());
    assert!(validate_pin_type("Input").is_err());
}

#[test]
fn a_nanometre_off_the_edge_is_still_on_it() {
    let mut sheets = vec![sheet("A")];
    assert!(add_sheet_pin(&mut sheets, &add("IN", 130.000_001, 55.0, Some("right"))).is_ok());
    let refusal =
        add_sheet_pin(&mut sheets, &add("OUT", 130.000_002, 55.0, Some("right"))).unwrap_err();
    assert!(words(&refusal).contains("x = 130.000002 is not on the 'right' edge"));
}
