//! Committing an edit of one sheet: what the edit intends is checked against the
//! document before it is written, and again against the document that was saved.

use crate::numeral::{decimal, to_decimal};
use crate::refusal::{Refusal, RefusalView};
use crate::text::{
    find, find_last, first_match, last_match, lemma_first_match, lemma_last_match, same_text,
    slice_text, to_chars,
};
use vstd::prelude::*;

verus! {

/// A sheet as it stands in a document: its UUID, and the text of all it holds.
#[derive(Debug)]
pub struct SheetImage {
    pub uuid: String,
    pub content: String,
}

/// A [`SheetImage`] by its texts.
#[verifier::ext_equal]
pub struct ImageView {
    pub uuid: Seq<char>,
    pub content: Seq<char>,
}

impl View for SheetImage {
    type V = ImageView;

    open spec fn view(&self) -> ImageView {
        ImageView { uuid: self.uuid@, content: self.content@ }
    }
}

pub open spec fn image_views(images: Seq<SheetImage>) -> Seq<ImageView> {
    images.map_values(|image: SheetImage| image@)
}

/// What an edit is meant to leave behind.
#[derive(Debug)]
pub enum SheetMutationIntent {
    /// One sheet of that UUID, holding what is expected.
    Present { uuid: String, expected: String },
    /// No sheet of that UUID.
    Absent { uuid: String },
}

/// A [`SheetMutationIntent`] by its texts.
pub enum IntentView {
    Present { uuid: Seq<char>, expected: Seq<char> },
    Absent { uuid: Seq<char> },
}

impl View for SheetMutationIntent {
    type V = IntentView;

    open spec fn view(&self) -> IntentView {
        match self {
            SheetMutationIntent::Present { uuid, expected } => IntentView::Present {
                uuid: uuid@,
                expected: expected@,
            },
            SheetMutationIntent::Absent { uuid } => IntentView::Absent { uuid: uuid@ },
        }
    }
}

/// How many of the sheets have that UUID.
pub open spec fn count_uuid(images: Seq<ImageView>, uuid: Seq<char>) -> nat
    decreases images.len(),
{
    if images.len() == 0 {
        0
    } else {
        count_uuid(images.drop_last(), uuid) + if images.last().uuid == uuid {
            1nat
        } else {
            0nat
        }
    }
}

/// The first sheet of that UUID, from position `from` on.
pub open spec fn image_with(images: Seq<ImageView>, uuid: Seq<char>, from: int) -> Option<int>
    decreases images.len() - from,
{
    if from >= images.len() {
        None
    } else if images[from].uuid == uuid {
        Some(from)
    } else {
        image_with(images, uuid, from + 1)
    }
}

pub open spec fn wrong_count_text(phase: Seq<char>, count: nat, uuid: Seq<char>) -> Seq<char> {
    phase + " result contains "@ + decimal(count) + " sheet items with UUID "@ + uuid
        + "; expected exactly one"@
}

pub open spec fn differs_text(phase: Seq<char>, uuid: Seq<char>) -> Seq<char> {
    phase + " sheet UUID "@ + uuid + " differs from the edited intent"@
}

pub open spec fn still_there_text(phase: Seq<char>, count: nat, uuid: Seq<char>) -> Seq<char> {
    phase + " result still contains "@ + decimal(count) + " sheet items with deleted UUID "@
        + uuid
}

/// In what way the sheets fall short of the intent, if they do.
pub open spec fn mutation_fault(
    images: Seq<ImageView>,
    intent: IntentView,
    phase: Seq<char>,
) -> Option<Seq<char>> {
    match intent {
        IntentView::Present { uuid, expected } => if count_uuid(images, uuid) != 1 {
            Some(wrong_count_text(phase, count_uuid(images, uuid), uuid))
        } else if images[image_with(images, uuid, 0)->0].content != expected {
            Some(differs_text(phase, uuid))
        } else {
            None
        },
        IntentView::Absent { uuid } => if count_uuid(images, uuid) > 0 {
            Some(still_there_text(phase, count_uuid(images, uuid), uuid))
        } else {
            None
        },
    }
}

/// Count the sheets of a UUID, and find the first.
fn find_images(images: &Vec<SheetImage>, uuid: &str) -> (found: (usize, Option<usize>))
    ensures
        found.0 == count_uuid(image_views(images@), uuid@),
        match found.1 {
            Some(i) => i < images@.len() && image_with(image_views(images@), uuid@, 0) == Some(
                i as int,
            ),
            None => image_with(image_views(images@), uuid@, 0) is None && found.0 == 0,
        },
{
    let ghost all = image_views(images@);
    let mut count: usize = 0;
    let mut first: Option<usize> = None;
    let mut i: usize = 0;
    assert(all.take(0).len() == 0);
    while i < images.len()
        invariant
            i <= images@.len(),
            all == image_views(images@),
            count <= i,
            count == count_uuid(all.take(i as int), uuid@),
            match first {
                Some(f) => f < i && image_with(all, uuid@, 0) == Some(f as int),
                None => count == 0 && image_with(all, uuid@, 0) == image_with(
                    all,
                    uuid@,
                    i as int,
                ),
            },
        decreases images@.len() - i,
    {
        assert(all.take(i + 1).drop_last() =~= all.take(i as int));
        assert(all[i as int] == images@[i as int]@);
        if same_text(images[i].uuid.as_str(), uuid) {
            count += 1;
            if first.is_none() {
                first = Some(i);
            }
        }
        i += 1;
    }
    assert(all.take(i as int) =~= all);
    (count, first)
}

/// Hold the sheets of a document to the intent of an edit.
pub fn verify_sheet_mutation(
    images: &Vec<SheetImage>,
    intent: &SheetMutationIntent,
    phase: &str,
) -> (verdict: Result<(), String>)
    ensures
        match verdict {
            Ok(_) => mutation_fault(image_views(images@), intent@, phase@) is None,
            Err(reason) => mutation_fault(image_views(images@), intent@, phase@) == Some(reason@),
        },
{
    match intent {
        SheetMutationIntent::Present { uuid, expected } => {
            let (count, first) = find_images(images, uuid.as_str());
            let content_is_expected = match first {
                Some(i) => {
                    assert(image_views(images@)[i as int] == images@[i as int]@);
                    same_text(images[i].content.as_str(), expected.as_str())
                },
                None => false,
            };
            if count != 1 {
                let mut reason = phase.to_owned();
                reason.append(" result contains ");
                reason.append(to_decimal(count as u128).as_str());
                reason.append(" sheet items with UUID ");
                reason.append(uuid.as_str());
                reason.append("; expected exactly one");
                return Err(reason);
            }
            if !content_is_expected {
                let mut reason = phase.to_owned();
                reason.append(" sheet UUID ");
                reason.append(uuid.as_str());
                reason.append(" differs from the edited intent");
                return Err(reason);
            }
            Ok(())
        },
        SheetMutationIntent::Absent { uuid } => {
            let (count, _) = find_images(images, uuid.as_str());
            if count > 0 {
                let mut reason = phase.to_owned();
                reason.append(" result still contains ");
                reason.append(to_decimal(count as u128).as_str());
                reason.append(" sheet items with deleted UUID ");
                reason.append(uuid.as_str());
                return Err(reason);
            }
            Ok(())
        },
    }
}

/// The refusal of an edit whose result was found wrong before it was written.
pub open spec fn precommit_refusal(path: Seq<char>, reason: Seq<char>) -> RefusalView {
    RefusalView::StaleTarget {
        target: path,
        reason,
        message: "Prospective hierarchy validation failed; nothing was written. "@ + reason,
    }
}

/// The refusal of an edit whose result was found wrong before it was written.
pub fn sheet_precommit_refusal(path: &str, reason: &str) -> (refusal: Refusal)
    ensures
        refusal@ == precommit_refusal(path@, reason@),
{
    let mut message =
        "Prospective hierarchy validation failed; nothing was written. ".to_owned();
    message.append(reason);
    Refusal::StaleTarget { target: path.to_owned(), reason: reason.to_owned(), message }
}

/// How far a commit has come.
#[derive(Clone, Copy, Debug, PartialEq, Eq, Structural)]
pub enum CommitPhase {
    /// The edited document is at hand and has not been written.
    Prospective,
    /// The edit has been written, and the document read back.
    PostCommit,
}

/// What a commit does next.
#[derive(Debug)]
pub enum CommitAction {
    /// Write the edit, and read the document back.
    Write,
    /// Report success.
    Finish,
    /// Report the refusal.
    Refuse(Refusal),
}

/// A [`CommitAction`] by its texts.
pub enum ActionView {
    Write,
    Finish,
    Refuse(RefusalView),
}

impl View for CommitAction {
    type V = ActionView;

    open spec fn view(&self) -> ActionView {
        match self {
            CommitAction::Write => ActionView::Write,
            CommitAction::Finish => ActionView::Finish,
            CommitAction::Refuse(refusal) => ActionView::Refuse(refusal@),
        }
    }
}

/// A document as it was read: its sheets, or why it could not be read.
pub enum ReadView {
    Sheets(Seq<ImageView>),
    Unreadable(Seq<char>),
}

pub open spec fn read_view(document: Result<Vec<SheetImage>, String>) -> ReadView {
    match document {
        Ok(images) => ReadView::Sheets(image_views(images@)),
        Err(error) => ReadView::Unreadable(error@),
    }
}

pub open spec fn phase_name(phase: CommitPhase) -> Seq<char> {
    match phase {
        CommitPhase::Prospective => "prospective"@,
        CommitPhase::PostCommit => "post-commit"@,
    }
}

/// Why the document that was read is not what the edit intends, if it is not.
pub open spec fn document_fault(
    phase: CommitPhase,
    intent: IntentView,
    document: ReadView,
) -> Option<Seq<char>> {
    match document {
        ReadView::Sheets(images) => mutation_fault(images, intent, phase_name(phase)),
        ReadView::Unreadable(error) => Some(
            match phase {
                CommitPhase::Prospective => "prospective schematic is not readable: "@ + error,
                CommitPhase::PostCommit => "The committed schematic could not be loaded: "@
                    + error,
            },
        ),
    }
}

/// What a commit does next, by how far it has come and what was read.
pub open spec fn next_action(
    phase: CommitPhase,
    path: Seq<char>,
    operation: Seq<char>,
    intent: IntentView,
    document: ReadView,
) -> ActionView {
    match (document_fault(phase, intent, document), phase) {
        (None, CommitPhase::Prospective) => ActionView::Write,
        (None, CommitPhase::PostCommit) => ActionView::Finish,
        (Some(reason), CommitPhase::Prospective) => ActionView::Refuse(
            precommit_refusal(path, reason),
        ),
        (Some(reason), CommitPhase::PostCommit) => ActionView::Refuse(
            RefusalView::OutcomeUncertain { target: path, operation, reason },
        ),
    }
}

/// Decide what a commit does next. Nothing may be written before the edited
/// document has been checked, and success may be reported only of the document
/// that was read back.
pub fn next_commit_action(
    phase: CommitPhase,
    path: &str,
    operation: &str,
    intent: &SheetMutationIntent,
    document: &Result<Vec<SheetImage>, String>,
) -> (action: CommitAction)
    ensures
        action@ == next_action(phase, path@, operation@, intent@, read_view(*document)),
{
    let fault: Option<String> = match document {
        Ok(images) => {
            let name = match phase {
                CommitPhase::Prospective => "prospective",
                CommitPhase::PostCommit => "post-commit",
            };
            match verify_sheet_mutation(images, intent, name) {
                Ok(_) => None,
                Err(reason) => Some(reason),
            }
        },
        Err(error) => {
            let mut reason = match phase {
                CommitPhase::Prospective => "prospective schematic is not readable: ".to_owned(),
                CommitPhase::PostCommit => {
                    "The committed schematic could not be loaded: ".to_owned()
                },
            };
            reason.append(error.as_str());
            Some(reason)
        },
    };
    match (fault, phase) {
        (None, CommitPhase::Prospective) => CommitAction::Write,
        (None, CommitPhase::PostCommit) => CommitAction::Finish,
        (Some(reason), CommitPhase::Prospective) => CommitAction::Refuse(
            sheet_precommit_refusal(path, reason.as_str()),
        ),
        (Some(reason), CommitPhase::PostCommit) => CommitAction::Refuse(
            Refusal::OutcomeUncertain {
                target: path.to_owned(),
                operation: operation.to_owned(),
                reason,
            },
        ),
    }
}

/// `edited <label> result has no sheet UUID <uuid>`.
pub open spec fn no_such_uuid_text(label: Seq<char>, uuid: Seq<char>) -> Seq<char> {
    "edited "@ + label + " result has no sheet UUID "@ + uuid
}

/// The intent of an edit that leaves the sheet of that UUID as it stands in the
/// edited document.
pub fn edited_sheet_intent(
    edited: &Vec<SheetImage>,
    uuid: &str,
    label: &str,
) -> (intent: Result<SheetMutationIntent, String>)
    ensures
        match image_with(image_views(edited@), uuid@, 0) {
            Some(i) => intent matches Ok(found) && found@ == (IntentView::Present {
                uuid: uuid@,
                expected: image_views(edited@)[i].content,
            }),
            None => intent matches Err(e) && e@ == no_such_uuid_text(label@, uuid@),
        },
{
    let (_, first) = find_images(edited, uuid);
    match first {
        Some(i) => {
            assert(image_views(edited@)[i as int] == edited@[i as int]@);
            Ok(
                SheetMutationIntent::Present {
                    uuid: uuid.to_owned(),
                    expected: edited[i].content.clone(),
                },
            )
        },
        None => {
            let mut message = "edited ".to_owned();
            message.append(label);
            message.append(" result has no sheet UUID ");
            message.append(uuid);
            Err(message)
        },
    }
}

/// A way to spoil the text of an edited document once, to show that the check
/// before writing catches it.
#[derive(Debug)]
pub enum HierarchyProspectiveFault {
    /// Put `to` in place of the first `from`.
    Replace { from: String, to: String },
    /// Put the text of a sheet back before the last line that closes the document.
    RestoreDeletedSheet(String),
}

/// The fault can be applied to the text.
pub open spec fn fault_applies(source: Seq<char>, fault: Option<HierarchyProspectiveFault>) -> bool {
    match fault {
        Some(HierarchyProspectiveFault::Replace { from, to }) => first_match(
            source,
            from@,
            0,
        ) is Some,
        Some(HierarchyProspectiveFault::RestoreDeletedSheet(_)) => last_match(
            source,
            "\n)"@,
            source.len() as int,
        ) is Some,
        None => true,
    }
}

/// The text with the fault applied.
pub open spec fn with_fault(
    source: Seq<char>,
    fault: Option<HierarchyProspectiveFault>,
) -> Seq<char> {
    match fault {
        Some(HierarchyProspectiveFault::Replace { from, to }) => {
            let at = first_match(source, from@, 0)->0;
            source.take(at) + to@ + source.skip(at + from@.len() as int)
        },
        Some(HierarchyProspectiveFault::RestoreDeletedSheet(sheet)) => {
            let at = last_match(source, "\n)"@, source.len() as int)->0;
            source.take(at) + "\n"@ + sheet@ + source.skip(at)
        },
        None => source,
    }
}

/// Spoil the text of an edited document by the fault that is set, if one is. A
/// fault is used up by being applied.
pub fn apply_hierarchy_prospective_fault(
    source: String,
    fault: &mut Option<HierarchyProspectiveFault>,
) -> (out: String)
    requires
        fault_applies(source@, *old(fault)),
    ensures
        out@ == with_fault(source@, *old(fault)),
        *final(fault) is None,
{
    match fault.take() {
        None => source,
        Some(HierarchyProspectiveFault::Replace { from, to }) => {
            let chars = to_chars(source.as_str());
            let pattern = to_chars(from.as_str());
            proof {
                lemma_first_match(source@, from@, 0);
            }
            match find(&chars, &pattern, 0) {
                Some(at) => {
                    let len = chars.len();
                    assert(at + pattern@.len() <= len);
                    let mut out = slice_text(&chars, 0, at);
                    out.append(to.as_str());
                    out.append(slice_text(&chars, at + pattern.len(), len).as_str());
                    assert(source@.subrange(0, at as int) =~= source@.take(at as int));
                    assert(source@.subrange(at + from@.len(), source@.len() as int)
                        =~= source@.skip(at + from@.len() as int));
                    out
                },
                None => source,
            }
        },
        Some(HierarchyProspectiveFault::RestoreDeletedSheet(sheet)) => {
            let chars = to_chars(source.as_str());
            let pattern = to_chars("\n)");
            proof {
                lemma_last_match(source@, "\n)"@, source@.len() as int);
            }
            match find_last(&chars, &pattern) {
                Some(at) => {
                    let mut out = slice_text(&chars, 0, at);
                    out.append("\n");
                    out.append(sheet.as_str());
                    out.append(slice_text(&chars, at, chars.len()).as_str());
                    assert(source@.subrange(0, at as int) =~= source@.take(at as int));
                    assert(source@.subrange(at as int, source@.len() as int)
                        =~= source@.skip(at as int));
                    out
                },
                None => source,
            }
        },
    }
}

/// A commit from the edited document to its end: whether it writes, and what it
/// reports, by the edited document and the one read back after writing.
pub open spec fn commit_run(
    path: Seq<char>,
    operation: Seq<char>,
    intent: IntentView,
    prospective: ReadView,
    committed: ReadView,
) -> (bool, Option<RefusalView>) {
    match next_action(CommitPhase::Prospective, path, operation, intent, prospective) {
        ActionView::Write => match next_action(
            CommitPhase::PostCommit,
            path,
            operation,
            intent,
            committed,
        ) {
            ActionView::Refuse(refusal) => (true, Some(refusal)),
            _ => (true, None),
        },
        ActionView::Refuse(refusal) => (false, Some(refusal)),
        ActionView::Finish => (false, None),
    }
}

/// A commit writes exactly where the edited document is what was intended, and
/// reports success exactly where the document read back is too. A refusal that
/// says that nothing was written comes only where nothing was, and one that
/// calls the outcome uncertain only where something was.
pub proof fn law_commit_writes_only_what_was_checked(
    path: Seq<char>,
    operation: Seq<char>,
    intent: IntentView,
    prospective: ReadView,
    committed: ReadView,
)
    ensures
        ({
            let (wrote, refusal) = commit_run(path, operation, intent, prospective, committed);
            let good = document_fault(CommitPhase::Prospective, intent, prospective) is None;
            let saved = document_fault(CommitPhase::PostCommit, intent, committed) is None;
            &&& wrote == good
            &&& refusal is None <==> good && saved
            &&& refusal is Some ==> (refusal->0 is StaleTarget <==> !wrote)
            &&& refusal is Some ==> (refusal->0 is OutcomeUncertain <==> wrote)
        }),
{
}

proof fn lemma_count_uuid(images: Seq<ImageView>, uuid: Seq<char>)
    ensures
        count_uuid(images, uuid) == 0 <==> forall|i: int|
            0 <= i < images.len() ==> (#[trigger] images[i]).uuid != uuid,
        count_uuid(images, uuid) == 1 ==> forall|i: int, j: int|
            0 <= i < images.len() && 0 <= j < images.len() && (#[trigger] images[i]).uuid == uuid
                && (#[trigger] images[j]).uuid == uuid ==> i == j,
    decreases images.len(),
{
    if images.len() > 0 {
        let shorter = images.drop_last();
        let last = images.len() - 1;
        lemma_count_uuid(shorter, uuid);
        assert(images[last] == images.last());
        if count_uuid(images, uuid) == 0 {
            assert forall|i: int| 0 <= i < images.len() implies (#[trigger] images[i]).uuid
                != uuid by {
                if i < last {
                    assert(shorter[i] == images[i]);
                }
            }
        } else if images.last().uuid != uuid {
            let i = choose|i: int| 0 <= i < shorter.len() && (#[trigger] shorter[i]).uuid == uuid;
            assert(images[i].uuid == uuid);
        }
        if count_uuid(images, uuid) == 1 {
            assert forall|i: int, j: int|
                0 <= i < images.len() && 0 <= j < images.len() && (#[trigger] images[i]).uuid
                    == uuid && (#[trigger] images[j]).uuid == uuid implies i == j by {
                if i < last {
                    assert(shorter[i] == images[i]);
                }
                if j < last {
                    assert(shorter[j] == images[j]);
                }
            }
        }
    }
}

proof fn lemma_image_with(images: Seq<ImageView>, uuid: Seq<char>, from: int)
    requires
        0 <= from,
    ensures
        match image_with(images, uuid, from) {
            Some(i) => from <= i < images.len() && images[i].uuid == uuid,
            None => forall|i: int| from <= i < images.len() ==> (#[trigger] images[i]).uuid != uuid,
        },
    decreases images.len() - from,
{
    if from < images.len() && images[from].uuid != uuid {
        lemma_image_with(images, uuid, from + 1);
    }
}

/// A document that passes the check of an edit holds one sheet of the UUID, and
/// that sheet holds what is expected.
pub proof fn law_checked_edit_is_there(
    images: Seq<ImageView>,
    uuid: Seq<char>,
    expected: Seq<char>,
    phase: Seq<char>,
)
    requires
        mutation_fault(images, IntentView::Present { uuid, expected }, phase) is None,
    ensures
        exists|i: int|
            0 <= i < images.len() && (#[trigger] images[i]).uuid == uuid && images[i].content
                == expected && forall|j: int|
                0 <= j < images.len() && j != i ==> (#[trigger] images[j]).uuid != uuid,
{
    lemma_count_uuid(images, uuid);
    lemma_image_with(images, uuid, 0);
    let i = image_with(images, uuid, 0)->0;
    assert(images[i].uuid == uuid);
}

/// A document that passes the check of a deletion holds no sheet of the UUID.
pub proof fn law_checked_deletion_is_gone(
    images: Seq<ImageView>,
    uuid: Seq<char>,
    phase: Seq<char>,
)
    ensures
        mutation_fault(images, IntentView::Absent { uuid }, phase) is None <==> forall|i: int|
            0 <= i < images.len() ==> (#[trigger] images[i]).uuid != uuid,
{
    lemma_count_uuid(images, uuid);
}

/// An edited document in which the UUID stands once passes the check of its own
/// intent.
pub proof fn law_edited_document_meets_its_intent(
    edited: Seq<ImageView>,
    uuid: Seq<char>,
    phase: Seq<char>,
)
    requires
        count_uuid(edited, uuid) == 1,
    ensures
        ({
            let i = image_with(edited, uuid, 0);
            &&& i is Some
            &&& mutation_fault(
                edited,
                IntentView::Present { uuid, expected: edited[i->0].content },
                phase,
            ) is None
        }),
{
    lemma_count_uuid(edited, uuid);
    lemma_image_with(edited, uuid, 0);
}

} // verus!
