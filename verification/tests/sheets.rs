use sch_hierarchy::model::{Sheet, SheetPin};
use sch_hierarchy::new_sheets::{
    check_duplicate, check_new_sheet, check_sheet_file, copy_transitions, duplicate_source, link_transitions, plan_duplicate, plan_new_sheet,
    root_instance, sheet_instance, transition_if_changed, AddSheetRequest, ChildDocument,
    DuplicateOnDisk, DuplicateRequest, FileTransition, NewSheet, OnDisk, PatchedDocument,
};
use sch_hierarchy::refusal::Refusal;
use sch_hierarchy::sheets::{
    delete_sheet, deletion_note, describe_sheet, edit_sheet, highest_page, move_sheet,
    next_free_page, read_back_sheet, EditSheetRequest, SheetField,
};

fn mm(v: f64) -> i64 {
    (v * 1e12).round() as i64
}

fn sheet(name: &str, x: f64, y: f64, page: Option<&str>) -> Sheet {
    Sheet {
        uuid: format!("uuid-{name}"),
        name: name.to_owned(),
        file: format!("{}.kicad_sch", name.to_lowercase()),
        x: mm(x),
        y: mm(y),
        width: mm(80.0),
        height: mm(50.0),
        page: page.map(str::to_owned),
        pins: Vec::new(),
    }
}

fn edit(name: &str) -> EditSheetRequest {
    EditSheetRequest {
        sheet_name: name.to_owned(),
        new_name: None,
        new_file: None,
        x: None,
        y: None,
        width: None,
        height: None,
    }
}

fn add(file: &str, name: Option<&str>) -> AddSheetRequest {
    AddSheetRequest {
        schematic: "/p/root.kicad_sch".to_owned(),
        sheet_file: file.to_owned(),
        sheet_name: name.map(str::to_owned),
        x: None,
        y: None,
        width: None,
        height: None,
    }
}

fn words(refusal: &Refusal) -> String {
    match refusal {
        Refusal::Message(text) => text.clone(),
        other => panic!("unexpected refusal {other:?}"),
    }
}

/// The sheet as it stands in the schematic once the plan was carried out.
fn placed(plan: NewSheet) -> Sheet {
    Sheet {
        uuid: format!("uuid-{}", plan.name),
        name: plan.name,
        file: plan.file,
        x: plan.x as i64,
        y: plan.y as i64,
        width: plan.width,
        height: plan.height,
        page: Some(plan.page),
        pins: Vec::new(),
    }
}

#[test]
fn add_hierarchical_sheet_creates_child_file_and_links_it() {
    let mut request = add("power.kicad_sch", Some("Power Supply"));
    request.x = Some(mm(20.0));
    request.y = Some(mm(20.0));
    assert_eq!(check_sheet_file(&request, true).unwrap(), "/p/power.kicad_sch");
    let plan = plan_new_sheet(&vec![], &request, OnDisk::Nothing).unwrap();
    assert_eq!(plan.name, "Power Supply");
    assert_eq!(plan.file, "power.kicad_sch");
    assert_eq!(plan.page, "2");
    assert_eq!((plan.x, plan.y), (mm(20.0) as i128, mm(20.0) as i128));
    assert_eq!(plan.child_path, "/p/power.kicad_sch");

    let (transitions, patched) = link_transitions(
        "/p/root.kicad_sch",
        "before".to_owned(),
        "after".to_owned(),
        &plan.child_path,
        ChildDocument::Blank("blank".to_owned()),
    );
    assert_eq!(patched, 0);
    assert_eq!(transitions.len(), 2);
    assert!(matches!(&transitions[0], FileTransition::Replace { path, before, after }
        if path == "/p/root.kicad_sch" && before == "before" && after == "after"));
    assert!(matches!(&transitions[1], FileTransition::Create { path, content }
        if path == "/p/power.kicad_sch" && content == "blank"));
}

#[test]
fn a_new_sheet_has_defaults() {
    let plan = plan_new_sheet(&vec![], &add("a.kicad_sch", None), OnDisk::Nothing).unwrap();
    assert_eq!(plan.name, "Sheet");
    assert_eq!((plan.x, plan.y), (mm(50.0) as i128, mm(50.0) as i128));
    assert_eq!((plan.width, plan.height), (mm(80.0), mm(50.0)));
}

#[test]
fn add_hierarchical_sheet_rejects_duplicate_name() {
    let sheets = vec![sheet("A", 50.0, 50.0, Some("2"))];
    let refusal =
        plan_new_sheet(&sheets, &add("b.kicad_sch", Some("A")), OnDisk::Nothing).unwrap_err();
    assert_eq!(
        words(&refusal),
        "Sheet named 'A' already exists in this schematic — use edit_sheet to modify it or pick a different name"
    );
}

#[test]
fn a_sheet_file_is_checked_before_the_schematic_is_read() {
    let traversal = "sheet_file must be a relative .kicad_sch path without parent traversal";
    for bad in ["../a.kicad_sch", "/a.kicad_sch", "./a.kicad_sch", "a.txt", ".kicad_sch", ""] {
        assert_eq!(words(&check_sheet_file(&add(bad, None), true).unwrap_err()), traversal);
    }
    assert_eq!(
        words(&check_sheet_file(&add("sub/a.kicad_sch", None), false).unwrap_err()),
        "The child sheet directory does not exist"
    );
    assert_eq!(
        words(&check_sheet_file(&add("root.kicad_sch", None), true).unwrap_err()),
        "A hierarchical sheet cannot reference its parent file"
    );
    let refusal = plan_new_sheet(&vec![], &add("a.kicad_sch", None), OnDisk::Other).unwrap_err();
    assert_eq!(
        words(&refusal),
        "The child schematic path exists but is not a regular file"
    );
}

#[test]
fn requests_are_checked_before_a_page_is_looked_for() {
    let full = vec![sheet("A", 0.0, 0.0, Some("4294967295"))];
    assert_eq!(highest_page(&full), u32::MAX);
    let taken = check_new_sheet(&full, &add("b.kicad_sch", Some("A")), OnDisk::Nothing);
    assert!(words(&taken.unwrap_err()).starts_with("Sheet named 'A' already exists"));
    assert!(check_new_sheet(&full, &add("b.kicad_sch", None), OnDisk::Nothing).is_ok());
    let copied = check_duplicate(&full, &copy("A", "A", "x.kicad_sch"), FREE);
    assert_eq!(words(&copied.unwrap_err()), "Sheet named 'A' already exists");
    assert_eq!(check_duplicate(&full, &copy("A", "B", "x.kicad_sch"), FREE).unwrap(), 0);
}

#[test]
fn second_sheet_gets_next_free_page() {
    let first = plan_new_sheet(&vec![], &add("a.kicad_sch", Some("A")), OnDisk::Nothing).unwrap();
    assert_eq!(first.page, "2");
    let sheets = vec![placed(first)];
    let second =
        plan_new_sheet(&sheets, &add("b.kicad_sch", Some("B")), OnDisk::Nothing).unwrap();
    assert_eq!(second.page, "3");
}

#[test]
fn the_next_page_follows_the_highest() {
    let sheets = vec![
        sheet("A", 0.0, 0.0, Some("7")),
        sheet("B", 0.0, 0.0, Some("x9")),
        sheet("C", 0.0, 0.0, None),
        sheet("D", 0.0, 0.0, Some("+4")),
    ];
    assert_eq!(highest_page(&sheets), 7);
    assert_eq!(next_free_page(&sheets), 8);
    assert_eq!(next_free_page(&vec![]), 2);
    assert_eq!(next_free_page(&vec![sheet("A", 0.0, 0.0, Some("0"))]), 2);
}

#[test]
fn linking_existing_file_with_symbols_patches_instance_paths() {
    let path = sheet_instance(&root_instance("root-uuid"), "sheet-uuid");
    assert_eq!(path, "/root-uuid/sheet-uuid");
    let (transitions, patched) = link_transitions(
        "r",
        "rb".to_owned(),
        "ra".to_owned(),
        "c",
        ChildDocument::Existing {
            before: "cb".to_owned(),
            linked: Some(PatchedDocument { text: "ca".to_owned(), patched: 1 }),
        },
    );
    assert_eq!(patched, 1);
    assert!(matches!(&transitions[1], FileTransition::Replace { path, before, after }
        if path == "c" && before == "cb" && after == "ca"));

    let (untouched, none) = link_transitions(
        "r",
        "rb".to_owned(),
        "ra".to_owned(),
        "c",
        ChildDocument::Existing { before: "cb".to_owned(), linked: None },
    );
    assert_eq!((untouched.len(), none), (1, 0));
}

#[test]
fn a_copy_is_created_with_its_linked_text() {
    let of = |linked: Option<PatchedDocument>| {
        copy_transitions(
            "r",
            "rb".to_owned(),
            "ra".to_owned(),
            "n",
            "copied".to_owned(),
            linked,
        )
    };
    let (plain, none) = of(None);
    assert_eq!((plain.len(), none), (2, 0));
    assert!(matches!(&plain[0], FileTransition::Replace { path, before, after }
        if path == "r" && before == "rb" && after == "ra"));
    assert!(matches!(&plain[1], FileTransition::Create { path, content }
        if path == "n" && content == "copied"));
    let (linked, patched) =
        of(Some(PatchedDocument { text: "linked".to_owned(), patched: 3 }));
    assert_eq!((linked.len(), patched), (2, 3));
    assert!(matches!(&linked[1], FileTransition::Create { path, content }
        if path == "n" && content == "linked"));
}

#[test]
fn only_a_changed_file_is_written() {
    assert!(transition_if_changed("p", "a".to_owned(), "a".to_owned()).is_none());
    assert!(matches!(
        transition_if_changed("p", "a".to_owned(), "b".to_owned()),
        Some(FileTransition::Replace { .. })
    ));
}

#[test]
fn edit_sheet_accepts_the_position_the_sheet_already_has() {
    let mut sheets = vec![sheet("Power", 20.0, 20.0, None)];
    let mut request = edit("Power");
    request.x = Some(mm(20.0));
    request.y = Some(mm(20.0));
    let done = edit_sheet(&mut sheets, &request).unwrap();
    assert!(done.changed.is_empty());
    assert_eq!(done.requested, vec![SheetField::Position]);
    assert_eq!(done.sheet.name, "Power");
}

#[test]
fn edit_sheet_reports_only_the_fields_that_differ() {
    let mut sheets = vec![sheet("Power", 20.0, 20.0, None)];
    let mut request = edit("Power");
    request.new_name = Some("Power Supply".to_owned());
    request.x = Some(mm(20.0));
    request.y = Some(mm(20.0));
    let done = edit_sheet(&mut sheets, &request).unwrap();
    let changed: Vec<&str> = done.changed.iter().map(|f| f.label()).collect();
    let requested: Vec<&str> = done.requested.iter().map(|f| f.label()).collect();
    assert_eq!(changed, vec!["name"]);
    assert_eq!(requested, vec!["name", "position"]);
    assert_eq!(done.sheet.name, "Power Supply");
}

#[test]
fn edit_sheet_is_idempotent_on_a_sheet_konnect_already_wrote() {
    let mut sheets = vec![sheet("Power", 20.0, 20.0, None)];
    let mut request = edit("Power");
    request.x = Some(mm(30.0));
    request.y = Some(mm(30.0));
    assert_eq!(edit_sheet(&mut sheets, &request).unwrap().changed.len(), 1);
    assert!(edit_sheet(&mut sheets, &request).unwrap().changed.is_empty());
    assert_eq!((sheets[0].x, sheets[0].y), (mm(30.0), mm(30.0)));
}

#[test]
fn edit_sheet_still_rejects_a_call_with_no_fields() {
    let mut sheets = vec![sheet("Power", 20.0, 20.0, None)];
    assert!(edit_sheet(&mut sheets, &edit("Power")).is_err());
}

#[test]
fn edit_sheet_renames_and_resizes() {
    let mut sheets = vec![sheet("A", 50.0, 50.0, None)];
    let mut request = edit("A");
    request.new_name = Some("Renamed".to_owned());
    request.width = Some(mm(100.0));
    request.height = Some(mm(60.0));
    edit_sheet(&mut sheets, &request).unwrap();
    assert_eq!(sheets[0].name, "Renamed");
    assert_eq!((sheets[0].width, sheets[0].height), (mm(100.0), mm(60.0)));
}

#[test]
fn edit_sheet_with_no_fields_errors() {
    let mut sheets = vec![sheet("A", 50.0, 50.0, None)];
    let refusal = edit_sheet(&mut sheets, &edit("A")).unwrap_err();
    assert_eq!(
        words(&refusal),
        "No fields to change — provide at least one of: new_name, new_file, x+y, width+height"
    );
    assert_eq!(words(&edit_sheet(&mut sheets, &edit("Z")).unwrap_err()), "Sheet 'Z' not found");
}

#[test]
fn edit_sheet_repoints_the_file() {
    let mut sheets = vec![sheet("A", 50.0, 50.0, None)];
    let mut request = edit("A");
    request.new_file = Some("other.kicad_sch".to_owned());
    let done = edit_sheet(&mut sheets, &request).unwrap();
    assert_eq!(done.changed, vec![SheetField::File]);
    assert_eq!(done.sheet_uuid, "uuid-A");
    assert_eq!(sheets[0].file, "other.kicad_sch");
}

#[test]
fn move_sheet_accepts_the_position_the_sheet_already_has() {
    let mut sheets = vec![sheet("Power", 20.0, 20.0, None)];
    assert!(!move_sheet(&mut sheets, "Power", mm(20.0), mm(20.0)).unwrap().changed);
}

#[test]
fn move_sheet_updates_position_only() {
    let mut sheets = vec![sheet("A", 10.0, 10.0, Some("2")), sheet("B", 1.0, 1.0, None)];
    let moved = move_sheet(&mut sheets, "A", mm(99.0), mm(88.0)).unwrap();
    assert!(moved.changed);
    assert_eq!(moved.sheet_uuid, "uuid-A");
    assert_eq!((sheets[0].x, sheets[0].y), (mm(99.0), mm(88.0)));
    assert_eq!((sheets[0].width, sheets[0].height), (mm(80.0), mm(50.0)));
    assert_eq!((sheets[1].x, sheets[1].y), (mm(1.0), mm(1.0)));
    assert_eq!(
        words(&move_sheet(&mut sheets, "Z", 0, 0).unwrap_err()),
        "Sheet 'Z' not found"
    );
}

#[test]
fn delete_sheet_removes_reference_but_keeps_child_file() {
    let mut sheets = vec![sheet("A", 50.0, 50.0, None)];
    let done = delete_sheet(&mut sheets, "A").unwrap();
    assert_eq!(done.sheet_uuid, "uuid-A");
    assert_eq!(done.child_file, "a.kicad_sch");
    assert!(sheets.is_empty());
    assert_eq!(
        deletion_note(),
        "The child schematic file was not deleted. Remaining sheets' page numbers may now have a gap — call renumber_sheet_pages if needed."
    );
}

#[test]
fn delete_sheet_not_found_errors() {
    let mut sheets = vec![];
    assert_eq!(words(&delete_sheet(&mut sheets, "Nope").unwrap_err()), "Sheet 'Nope' not found");
}

fn copy(source: &str, name: &str, file: &str) -> DuplicateRequest {
    DuplicateRequest {
        schematic: "root.kicad_sch".to_owned(),
        source_name: source.to_owned(),
        new_name: name.to_owned(),
        new_file: file.to_owned(),
    }
}

const FREE: DuplicateOnDisk =
    DuplicateOnDisk { directory_exists: true, new_exists: false, source_exists: true };

#[test]
fn duplicate_sheet_copies_file_independently() {
    let sheets = vec![sheet("Amp1", 10.0, 10.0, Some("2"))];
    let request = copy("Amp1", "Amp2", "amp2.kicad_sch");
    assert_eq!(duplicate_source(&sheets, &request).as_deref(), Some("amp1.kicad_sch"));
    let plan = plan_duplicate(&sheets, &request, FREE).unwrap();
    assert_eq!(plan.file, "amp2.kicad_sch");
    assert_eq!((plan.x, plan.y), (mm(30.0) as i128, mm(30.0) as i128));
    assert_eq!((plan.width, plan.height), (mm(80.0), mm(50.0)));
    assert_eq!(plan.page, "3");
    assert_eq!(plan.child_path, "amp2.kicad_sch");
}

#[test]
fn duplicate_sheet_refuses_to_overwrite_existing_file() {
    let sheets = vec![sheet("A", 0.0, 0.0, None), sheet("B", 0.0, 0.0, None)];
    let taken = DuplicateOnDisk { new_exists: true, ..FREE };
    let refusal =
        plan_duplicate(&sheets, &copy("A", "A-copy", "b.kicad_sch"), taken).unwrap_err();
    assert_eq!(
        words(&refusal),
        "'b.kicad_sch' already exists — pick a different file name, or use add_hierarchical_sheet to link the existing file instead of duplicating"
    );
}

#[test]
fn duplicate_sheet_refusals() {
    let sheets = vec![sheet("A", 0.0, 0.0, None)];
    let said = |request: DuplicateRequest, disk: DuplicateOnDisk| {
        words(&plan_duplicate(&sheets, &request, disk).unwrap_err())
    };
    assert_eq!(said(copy("A", "A", "x.kicad_sch"), FREE), "Sheet named 'A' already exists");
    assert_eq!(said(copy("Z", "B", "x.kicad_sch"), FREE), "Sheet 'Z' not found");
    let relative = "new_file must be a relative .kicad_sch path in an existing project directory";
    assert_eq!(said(copy("A", "B", "x.txt"), FREE), relative);
    assert_eq!(
        said(
            copy("A", "B", "d/x.kicad_sch"),
            DuplicateOnDisk { directory_exists: false, ..FREE }
        ),
        relative
    );
    assert_eq!(
        said(copy("A", "B", "x.kicad_sch"), DuplicateOnDisk { source_exists: false, ..FREE }),
        "Source sheet's file 'a.kicad_sch' was not found on disk — cannot duplicate"
    );
    assert!(duplicate_source(&sheets, &copy("Z", "B", "x.kicad_sch")).is_none());
}

#[test]
fn a_sheet_is_described_with_its_pins() {
    let mut one = sheet("A", 1.0, 2.0, Some("4"));
    one.pins.push(SheetPin {
        name: "VCC".to_owned(),
        pin_type: "input".to_owned(),
        x: 3,
        y: 4,
        rotation: Some(0),
    });
    let summary = describe_sheet(&one);
    assert_eq!(summary.name, "A");
    assert_eq!(summary.file, "a.kicad_sch");
    assert_eq!(summary.uuid, "uuid-A");
    assert_eq!((summary.x, summary.y), (mm(1.0), mm(2.0)));
    assert_eq!(summary.page.as_deref(), Some("4"));
    assert_eq!(summary.pins.len(), 1);
    assert_eq!(summary.pins[0].name, "VCC");
    assert_eq!(summary.pins[0].pin_type, "input");
    assert_eq!((summary.pins[0].x, summary.pins[0].y), (3, 4));
    let saved = vec![one];
    assert_eq!(read_back_sheet(&saved, "A", "gone").unwrap().name, "A");
    assert_eq!(read_back_sheet(&saved, "B", "gone").unwrap_err(), "gone");
}
