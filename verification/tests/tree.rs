use sch_hierarchy::files::{
    require_schematic, SchematicDocument, SchematicFile, WalkStop, MAX_HIERARCHY_DEPTH,
};
use sch_hierarchy::hierarchy::{build_hierarchy_node, HierarchyNode};
use sch_hierarchy::import::{import_sheet_pins, ImportRequest};
use sch_hierarchy::model::{HierarchicalLabel, Sheet, SheetPin};
use sch_hierarchy::refusal::Refusal;
use sch_hierarchy::renumber::collect_renumber_transitions;
use sch_hierarchy::validation::{collect_pin_mismatches, SheetIssue};

fn sheet(name: &str, file: &str, page: Option<&str>) -> Sheet {
    Sheet {
        uuid: format!("u-{name}"),
        name: name.to_owned(),
        file: file.to_owned(),
        x: 0,
        y: 0,
        width: 80_000_000_000_000,
        height: 50_000_000_000_000,
        page: page.map(str::to_owned),
        pins: Vec::new(),
    }
}

fn label(text: &str) -> HierarchicalLabel {
    HierarchicalLabel { text: text.to_owned(), shape: Some("input".to_owned()) }
}

fn pin(name: &str) -> SheetPin {
    SheetPin {
        name: name.to_owned(),
        pin_type: "passive".to_owned(),
        x: 0,
        y: 0,
        rotation: Some(0),
    }
}

fn file(path: &str, sheets: Vec<Sheet>, labels: Vec<HierarchicalLabel>) -> SchematicFile {
    SchematicFile {
        path: path.to_owned(),
        canonical: path.to_owned(),
        exists: true,
        document: Ok(SchematicDocument { sheets, labels }),
    }
}

fn missing(path: &str) -> SchematicFile {
    SchematicFile {
        path: path.to_owned(),
        canonical: path.to_owned(),
        exists: false,
        document: Err("no such file".to_owned()),
    }
}

fn broken(path: &str) -> SchematicFile {
    SchematicFile {
        path: path.to_owned(),
        canonical: path.to_owned(),
        exists: true,
        document: Err("not a schematic".to_owned()),
    }
}

#[test]
fn get_sheet_hierarchy_returns_nested_tree() {
    let files = vec![
        file("d/root", vec![sheet("Mid", "mid", Some("2"))], vec![]),
        file("d/mid", vec![sheet("Leaf", "leaf", None)], vec![]),
        file("d/leaf", vec![], vec![]),
    ];
    let tree = build_hierarchy_node(&files, "d/root").unwrap();
    assert!(tree.error.is_none());
    assert_eq!(tree.children[0].sheet.name, "Mid");
    assert_eq!(tree.children[0].sheet.page.as_deref(), Some("2"));
    assert_eq!(tree.children[0].children[0].sheet.name, "Leaf");
    assert!(tree.children[0].children[0].error.is_none());
}

#[test]
fn get_sheet_hierarchy_reports_missing_child_file() {
    let files = vec![file("root", vec![sheet("Gone", "gone", None)], vec![]), missing("gone")];
    let tree = build_hierarchy_node(&files, "root").unwrap();
    assert_eq!(tree.children[0].error.as_deref(), Some("child file not found on disk"));
}

#[test]
fn a_file_that_is_not_listed_is_asked_for() {
    let mut files = vec![];
    assert_eq!(build_hierarchy_node(&files, "d/root").unwrap_err(), "d/root");
    files.push(file("d/root", vec![sheet("A", "a", None)], vec![]));
    assert_eq!(build_hierarchy_node(&files, "d/root").unwrap_err(), "d/a");
    assert!(matches!(collect_pin_mismatches(&files, "d/root"), Err(WalkStop::Needed(p)) if p == "d/a"));
    assert!(matches!(
        collect_renumber_transitions(&files, "d/root", "r", false),
        Err(WalkStop::Needed(p)) if p == "d/a"
    ));
}

#[test]
fn cycles_and_unreadable_files_are_reported_in_the_tree() {
    let files = vec![
        file("root", vec![sheet("Self", "root", None), sheet("Bad", "bad", None)], vec![]),
        broken("bad"),
    ];
    let tree = build_hierarchy_node(&files, "root").unwrap();
    assert_eq!(
        tree.children[0].error.as_deref(),
        Some("cycle detected — this file is already an ancestor in this tree")
    );
    assert!(tree.children[0].children.is_empty());
    assert_eq!(tree.children[1].error.as_deref(), Some("failed to load: not a schematic"));
    let bad_root = build_hierarchy_node(&vec![broken("root")], "root").unwrap();
    assert_eq!(bad_root.error.as_deref(), Some("failed to load: not a schematic"));
}

#[test]
fn one_file_may_stand_at_two_places() {
    let files = vec![
        file("root", vec![sheet("A", "leaf", None), sheet("B", "leaf", None)], vec![]),
        file("leaf", vec![], vec![]),
    ];
    let tree = build_hierarchy_node(&files, "root").unwrap();
    assert!(tree.children.iter().all(|c| c.error.is_none()));
}

#[test]
fn the_tree_ends_at_the_depth_limit() {
    let mut files = vec![];
    for n in 0..30 {
        files.push(file(&format!("f{n}"), vec![sheet("S", &format!("f{}", n + 1), None)], vec![]));
    }
    files.push(missing("f30"));
    let tree = build_hierarchy_node(&files, "f0").unwrap();
    let mut level: &Vec<HierarchyNode> = &tree.children;
    let mut depth = 0;
    let mut last_error = None;
    while let Some(node) = level.first() {
        depth += 1;
        last_error = node.error.clone();
        level = &node.children;
    }
    assert_eq!(depth, MAX_HIERARCHY_DEPTH + 1);
    assert_eq!(
        last_error.as_deref(),
        Some("max hierarchy depth exceeded — possible reference cycle")
    );
}

#[test]
fn a_walk_needs_its_root() {
    assert!(require_schematic("r", true).is_ok());
    assert!(matches!(require_schematic("r", false), Err(Refusal::Message(m)) if m == "Schematic 'r' not found"));
}

#[test]
fn renumber_sheet_pages_closes_gap_after_delete() {
    // A=2, B=3, C=4, and B has been deleted.
    let files = vec![
        file(
            "root",
            vec![sheet("A", "a", Some("2")), sheet("C", "c", Some("4"))],
            vec![],
        ),
        file("a", vec![], vec![]),
        file("c", vec![], vec![]),
    ];
    let plan = collect_renumber_transitions(&files, "root", "root-uuid", false).unwrap();
    let pages: Vec<(&str, &str, &str)> = plan
        .pages
        .iter()
        .map(|p| (p.sheet_name.as_str(), p.file.as_str(), p.page.as_str()))
        .collect();
    assert_eq!(pages, vec![("A", "a", "2"), ("C", "c", "3")]);
    assert_eq!(plan.edits.len(), 1);
    assert_eq!(plan.edits[0].path, "root");
    assert_eq!(plan.edits[0].prefix, "/root-uuid");
    assert_eq!(plan.edits[0].changes.len(), 1);
    assert_eq!(plan.edits[0].changes[0].index, 1);
    assert_eq!(plan.edits[0].changes[0].sheet_uuid, "u-C");
    assert_eq!(plan.edits[0].changes[0].page, "3");
}

#[test]
fn renumbering_is_depth_first() {
    let files = vec![
        file("root", vec![sheet("A", "a", None), sheet("B", "b", Some("4"))], vec![]),
        file("a", vec![sheet("A1", "gone", Some("3"))], vec![]),
        file("b", vec![sheet("B1", "gone", None)], vec![]),
        missing("gone"),
    ];
    let plan = collect_renumber_transitions(&files, "root", "r", false).unwrap();
    let order: Vec<String> =
        plan.pages.iter().map(|p| format!("{}={}", p.sheet_name, p.page)).collect();
    assert_eq!(order, vec!["A=2", "A1=3", "B=4", "B1=5"]);
    // Files below come first; a file whose pages all stand is left out.
    let written: Vec<(&str, &str)> =
        plan.edits.iter().map(|e| (e.path.as_str(), e.prefix.as_str())).collect();
    assert_eq!(written, vec![("b", "/r/u-B"), ("root", "/r")]);
}

#[test]
fn where_no_page_changes_no_file_is_written() {
    let files = vec![
        file("root", vec![sheet("A", "a", Some("2"))], vec![]),
        file("a", vec![sheet("B", "b", Some("3"))], vec![]),
        file("b", vec![], vec![]),
    ];
    for gained in [false, true] {
        let plan = collect_renumber_transitions(&files, "root", "r", gained).unwrap();
        assert!(plan.edits.is_empty());
        assert_eq!(plan.pages.len(), 2);
    }
}

#[test]
fn a_new_root_uuid_is_written_with_the_pages_that_name_it() {
    let files = vec![
        file("root", vec![sheet("A", "a", Some("2"))], vec![]),
        file("a", vec![sheet("B", "b", Some("9"))], vec![]),
        file("b", vec![], vec![]),
    ];
    let listed = |gained: bool| -> Vec<(String, usize)> {
        collect_renumber_transitions(&files, "root", "r", gained)
            .unwrap()
            .edits
            .iter()
            .map(|e| (e.path.clone(), e.changes.len()))
            .collect()
    };
    assert_eq!(listed(false), vec![("a".to_owned(), 1)]);
    assert_eq!(listed(true), vec![("a".to_owned(), 1), ("root".to_owned(), 0)]);
}

#[test]
fn renumbering_a_second_time_writes_nothing() {
    let mut files = vec![
        file("root", vec![sheet("A", "a", Some("2")), sheet("C", "c", Some("4"))], vec![]),
        file("a", vec![sheet("A1", "gone", None)], vec![]),
        file("c", vec![], vec![]),
        missing("gone"),
    ];
    let plan = collect_renumber_transitions(&files, "root", "r", false).unwrap();
    assert!(!plan.edits.is_empty());
    for edit in &plan.edits {
        let target = files.iter_mut().find(|f| f.path == edit.path).expect("file is listed");
        let document = target.document.as_mut().expect("file is readable");
        for change in &edit.changes {
            document.sheets[change.index].page = Some(change.page.clone());
        }
    }
    let again = collect_renumber_transitions(&files, "root", "r", false).unwrap();
    assert!(again.edits.is_empty());
    let pages: Vec<&str> = again.pages.iter().map(|p| p.page.as_str()).collect();
    assert_eq!(pages, vec!["2", "3", "4"]);
}

#[test]
fn renumbering_passes_over_cycles_and_stops_at_unreadable_files() {
    let cyclic = vec![
        file("root", vec![sheet("A", "a", None), sheet("B", "root", None)], vec![]),
        file("a", vec![sheet("Up", "root", None)], vec![]),
    ];
    let plan = collect_renumber_transitions(&cyclic, "root", "r", false).unwrap();
    let pages: Vec<&str> = plan.pages.iter().map(|p| p.page.as_str()).collect();
    assert_eq!(pages, vec!["2", "3", "4"]);

    let unreadable = vec![file("root", vec![sheet("A", "a", None)], vec![]), broken("a")];
    assert!(matches!(
        collect_renumber_transitions(&unreadable, "root", "r", false),
        Err(WalkStop::Unreadable(e)) if e == "not a schematic"
    ));
}

#[test]
fn every_sheet_gets_a_page_even_under_one_name() {
    let files = vec![
        file("root", vec![sheet("A", "a", None), sheet("A", "a", None)], vec![]),
        file("a", vec![], vec![]),
    ];
    let plan = collect_renumber_transitions(&files, "root", "r", false).unwrap();
    let changes: Vec<(usize, &str)> =
        plan.edits[0].changes.iter().map(|c| (c.index, c.page.as_str())).collect();
    assert_eq!(changes, vec![(0, "2"), (1, "3")]);
}

#[test]
fn validate_sheet_pins_reports_mismatches() {
    let mut power = sheet("Power", "power", None);
    power.pins.push(pin("GND"));
    let files = vec![
        file("root", vec![power], vec![]),
        file("power", vec![], vec![label("VIN"), label("VIN")]),
    ];
    let issues = collect_pin_mismatches(&files, "root").unwrap();
    assert_eq!(issues.len(), 1);
    match &issues[0] {
        SheetIssue::Mismatch { sheet, file, labels_without_pins, pins_without_labels } => {
            assert_eq!(sheet, "Power");
            assert_eq!(file, "power");
            assert_eq!(labels_without_pins, &vec!["VIN"]);
            assert_eq!(pins_without_labels, &vec!["GND"]);
        }
        other => panic!("unexpected issue {other:?}"),
    }
}

#[test]
fn validate_sheet_pins_reports_no_issues_when_synced() {
    let labels = vec![label("VIN")];
    let mut sheets = vec![sheet("Power", "power", None)];
    let request = ImportRequest {
        schematic: "root".to_owned(),
        sheet_name: "Power".to_owned(),
        side: None,
    };
    import_sheet_pins(&mut sheets, &request, Some(&labels)).unwrap();
    let files = vec![file("root", sheets, vec![]), file("power", vec![], labels)];
    assert!(collect_pin_mismatches(&files, "root").unwrap().is_empty());
}

#[test]
fn validation_reports_missing_children_and_looks_below() {
    let files = vec![
        file("root", vec![sheet("Gone", "gone", None), sheet("Mid", "mid", None)], vec![]),
        missing("gone"),
        file("mid", vec![sheet("Leaf", "leaf", None), sheet("Up", "root", None)], vec![]),
        file("leaf", vec![], vec![label("X")]),
    ];
    let issues = collect_pin_mismatches(&files, "root").unwrap();
    assert_eq!(issues.len(), 2);
    assert!(matches!(&issues[0], SheetIssue::MissingChild { sheet, file } if sheet == "Gone" && file == "gone"));
    assert!(matches!(&issues[1], SheetIssue::Mismatch { sheet, .. } if sheet == "Leaf"));
}

#[test]
fn validation_stops_at_a_child_it_cannot_read() {
    let files = vec![file("root", vec![sheet("A", "a", None)], vec![]), broken("a")];
    assert!(matches!(
        collect_pin_mismatches(&files, "root"),
        Err(WalkStop::Unreadable(e)) if e == "not a schematic"
    ));
    assert!(collect_pin_mismatches(&vec![broken("root")], "root").unwrap().is_empty());
}
