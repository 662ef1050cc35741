use sch_hierarchy::commit::{
    apply_hierarchy_prospective_fault, edited_sheet_intent, next_commit_action,
    sheet_precommit_refusal, verify_sheet_mutation, CommitAction, CommitPhase,
    HierarchyProspectiveFault, SheetImage, SheetMutationIntent,
};
use sch_hierarchy::refusal::Refusal;

fn image(uuid: &str, content: &str) -> SheetImage {
    SheetImage { uuid: uuid.to_owned(), content: content.to_owned() }
}

fn present() -> SheetMutationIntent {
    SheetMutationIntent::Present { uuid: "u".to_owned(), expected: "(at 75 80)".to_owned() }
}

fn absent() -> SheetMutationIntent {
    SheetMutationIntent::Absent { uuid: "u".to_owned() }
}

#[test]
fn hierarchy_handlers_refuse_bad_prospective_results_without_writing() {
    let edited = "(kicad_sch\n  (sheet (at 75 80) (uuid \"u\"))\n)\n";
    let mut fault = Some(HierarchyProspectiveFault::Replace {
        from: "(at 75 80)".to_owned(),
        to: "(at 76 80)".to_owned(),
    });
    let spoilt = apply_hierarchy_prospective_fault(edited.to_owned(), &mut fault);
    assert_eq!(spoilt, "(kicad_sch\n  (sheet (at 76 80) (uuid \"u\"))\n)\n");
    assert!(fault.is_none(), "a fault is used up");
    let action = next_commit_action(
        CommitPhase::Prospective,
        "/p/probe.kicad_sch",
        "move_sheet",
        &present(),
        &Ok(vec![image("u", "(at 76 80)")]),
    );
    match action {
        CommitAction::Refuse(Refusal::StaleTarget { target, reason, message }) => {
            assert_eq!(target, "/p/probe.kicad_sch");
            assert_eq!(reason, "prospective sheet UUID u differs from the edited intent");
            assert_eq!(
                message,
                "Prospective hierarchy validation failed; nothing was written. prospective sheet UUID u differs from the edited intent"
            );
        }
        other => panic!("unexpected action {other:?}"),
    }

    let mut fault =
        Some(HierarchyProspectiveFault::RestoreDeletedSheet("  (sheet (uuid \"u\"))".to_owned()));
    let spoilt = apply_hierarchy_prospective_fault("(kicad_sch\n)\n".to_owned(), &mut fault);
    assert_eq!(spoilt, "(kicad_sch\n  (sheet (uuid \"u\"))\n)\n");
    let action = next_commit_action(
        CommitPhase::Prospective,
        "p",
        "delete_sheet",
        &absent(),
        &Ok(vec![image("u", "x")]),
    );
    assert!(matches!(
        action,
        CommitAction::Refuse(Refusal::StaleTarget { reason, .. })
            if reason == "prospective result still contains 1 sheet items with deleted UUID u"
    ));
}

#[test]
fn no_fault_changes_nothing() {
    let mut fault = None;
    assert_eq!(apply_hierarchy_prospective_fault("abc".to_owned(), &mut fault), "abc");
}

#[test]
fn a_fault_replaces_only_the_first_place() {
    let mut fault =
        Some(HierarchyProspectiveFault::Replace { from: "a".to_owned(), to: "bb".to_owned() });
    assert_eq!(apply_hierarchy_prospective_fault("xaya".to_owned(), &mut fault), "xbbya");
}

#[test]
fn an_edit_is_held_to_its_intent() {
    let good = vec![image("v", "other"), image("u", "(at 75 80)")];
    assert!(verify_sheet_mutation(&good, &present(), "prospective").is_ok());
    assert_eq!(
        verify_sheet_mutation(&vec![], &present(), "post-commit").unwrap_err(),
        "post-commit result contains 0 sheet items with UUID u; expected exactly one"
    );
    let twice = vec![image("u", "(at 75 80)"), image("u", "(at 75 80)")];
    assert_eq!(
        verify_sheet_mutation(&twice, &present(), "prospective").unwrap_err(),
        "prospective result contains 2 sheet items with UUID u; expected exactly one"
    );
    assert!(verify_sheet_mutation(&vec![image("v", "x")], &absent(), "prospective").is_ok());
}

#[test]
fn a_commit_writes_and_then_reads_back() {
    let good = Ok(vec![image("u", "(at 75 80)")]);
    let write = next_commit_action(CommitPhase::Prospective, "p", "op", &present(), &good);
    assert!(matches!(write, CommitAction::Write));
    let finish = next_commit_action(CommitPhase::PostCommit, "p", "op", &present(), &good);
    assert!(matches!(finish, CommitAction::Finish));
}

#[test]
fn unreadable_documents_are_refused() {
    let unread = Err("bad bytes".to_owned());
    let before = next_commit_action(CommitPhase::Prospective, "p", "op", &present(), &unread);
    assert!(matches!(
        before,
        CommitAction::Refuse(Refusal::StaleTarget { reason, .. })
            if reason == "prospective schematic is not readable: bad bytes"
    ));
    let after = next_commit_action(CommitPhase::PostCommit, "p", "op", &present(), &unread);
    assert!(matches!(
        after,
        CommitAction::Refuse(Refusal::OutcomeUncertain { target, operation, reason })
            if target == "p" && operation == "op"
                && reason == "The committed schematic could not be loaded: bad bytes"
    ));
    let wrong = next_commit_action(
        CommitPhase::PostCommit,
        "p",
        "op",
        &present(),
        &Ok(vec![image("u", "else")]),
    );
    assert!(matches!(
        wrong,
        CommitAction::Refuse(Refusal::OutcomeUncertain { reason, .. })
            if reason == "post-commit sheet UUID u differs from the edited intent"
    ));
}

#[test]
fn the_intent_is_what_the_edited_document_holds() {
    let edited = vec![image("v", "1"), image("u", "2")];
    match edited_sheet_intent(&edited, "u", "edit_sheet").unwrap() {
        SheetMutationIntent::Present { uuid, expected } => {
            assert_eq!((uuid.as_str(), expected.as_str()), ("u", "2"));
        }
        other => panic!("unexpected intent {other:?}"),
    }
    assert_eq!(
        edited_sheet_intent(&edited, "w", "edit_sheet").unwrap_err(),
        "edited edit_sheet result has no sheet UUID w"
    );
}

#[test]
fn a_refusal_before_writing_says_so() {
    assert!(matches!(
        sheet_precommit_refusal("p", "why"),
        Refusal::StaleTarget { target, reason, message }
            if target == "p" && reason == "why"
                && message == "Prospective hierarchy validation failed; nothing was written. why"
    ));
}
