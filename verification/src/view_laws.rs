//! The values by which contracts speak of sheets, pins, files and reports are those
//! that these hold, field for field and in order.

use crate::catalogue::{ToolDef, ToolParam};
use crate::commit::{
    image_views, read_view, ActionView, CommitAction, IntentView, ReadView, SheetImage,
    SheetMutationIntent,
};
use crate::files::{
    file_views, DocumentView, SchematicDocument, SchematicFile, StopView, WalkStop,
};
use crate::geometry::SheetEdge;
use crate::hierarchy::{node_views, HierarchyNode, Subtree};
use crate::model::{
    label_names, label_views, pin_names, pin_views, sheet_views, text_of, HierarchicalLabel,
    LabelView, PinView, Sheet, SheetPin,
};
use crate::new_sheets::{transition_views, FileTransition, NewSheet, TransitionView};
use crate::refusal::{Refusal, RefusalView};
use crate::renumber::{change_views, FileEdit, PageChange, PageEntry, Renumbering};
use crate::sheets::{pin_summary_views, PinSummary, SheetSummary};
use crate::text::texts;
use crate::validation::{issue_views, IssueView, SheetIssue};
use vstd::prelude::*;

verus! {

/// Text that may be absent is seen as what it is, or as absent.
pub proof fn law_view_of_absent_text(text: Option<String>)
    ensures
        text is Some ==> text_of(text) == Some(text->0@),
        text is None ==> text_of(text) is None,
{
}

/// A list of texts is seen text by text.
pub proof fn law_view_of_texts(list: Seq<String>, i: int)
    ensures
        texts(list).len() == list.len(),
        0 <= i < list.len() ==> texts(list)[i] == list[i]@,
{
}

/// A pin is seen by its name, type, position and rotation, and a list of pins pin
/// by pin.
pub proof fn law_view_of_pins(pin: SheetPin, list: Seq<SheetPin>, i: int)
    ensures
        pin@.name == pin.name@,
        pin@.pin_type == pin.pin_type@,
        pin@.x == pin.x,
        pin@.y == pin.y,
        pin@.rotation == pin.rotation,
        pin_views(list).len() == list.len(),
        0 <= i < list.len() ==> pin_views(list)[i] == list[i]@,
{
}

/// A sheet is seen by all that it holds, and a list of sheets sheet by sheet.
pub proof fn law_view_of_sheets(sheet: Sheet, list: Seq<Sheet>, i: int)
    ensures
        sheet@.uuid == sheet.uuid@,
        sheet@.name == sheet.name@,
        sheet@.file == sheet.file@,
        sheet@.x == sheet.x,
        sheet@.y == sheet.y,
        sheet@.width == sheet.width,
        sheet@.height == sheet.height,
        sheet@.page == text_of(sheet.page),
        sheet@.pins == pin_views(sheet.pins@),
        sheet_views(list).len() == list.len(),
        0 <= i < list.len() ==> sheet_views(list)[i] == list[i]@,
{
}

/// A label is seen by its text and its shape, and a list of labels label by label;
/// the names of pins and labels are theirs, in order.
pub proof fn law_view_of_labels(
    label: HierarchicalLabel,
    list: Seq<HierarchicalLabel>,
    labels: Seq<LabelView>,
    pins: Seq<PinView>,
    i: int,
)
    ensures
        label@.text == label.text@,
        label@.shape == text_of(label.shape),
        label_views(list).len() == list.len(),
        0 <= i < list.len() ==> label_views(list)[i] == list[i]@,
        label_names(labels).len() == labels.len(),
        0 <= i < labels.len() ==> label_names(labels)[i] == labels[i].text,
        pin_names(pins).len() == pins.len(),
        0 <= i < pins.len() ==> pin_names(pins)[i] == pins[i].name,
{
}

/// A description is seen by all that it says of the sheet and of its pins.
pub proof fn law_view_of_descriptions(
    pin: PinSummary,
    sheet: SheetSummary,
    list: Seq<PinSummary>,
    i: int,
)
    ensures
        pin@.name == pin.name@,
        pin@.pin_type == pin.pin_type@,
        pin@.x == pin.x,
        pin@.y == pin.y,
        sheet@.name == sheet.name@,
        sheet@.file == sheet.file@,
        sheet@.uuid == sheet.uuid@,
        sheet@.x == sheet.x,
        sheet@.y == sheet.y,
        sheet@.width == sheet.width,
        sheet@.height == sheet.height,
        sheet@.page == text_of(sheet.page),
        sheet@.pins == pin_summary_views(sheet.pins@),
        pin_summary_views(list).len() == list.len(),
        0 <= i < list.len() ==> pin_summary_views(list)[i] == list[i]@,
{
}

/// A sheet to be put in is seen by all that it is to hold.
pub proof fn law_view_of_a_new_sheet(sheet: NewSheet)
    ensures
        sheet@.name == sheet.name@,
        sheet@.file == sheet.file@,
        sheet@.x == sheet.x,
        sheet@.y == sheet.y,
        sheet@.width == sheet.width,
        sheet@.height == sheet.height,
        sheet@.page == sheet.page@,
        sheet@.child_path == sheet.child_path@,
{
}

/// A change of a file is seen by its path and by the texts it is made of.
pub proof fn law_view_of_transitions(
    change: FileTransition,
    list: Seq<FileTransition>,
    i: int,
)
    ensures
        change matches FileTransition::Replace { path, before, after } ==> change@ == (
        TransitionView::Replace { path: path@, before: before@, after: after@ }),
        change matches FileTransition::Create { path, content } ==> change@ == (
        TransitionView::Create { path: path@, content: content@ }),
        transition_views(list).len() == list.len(),
        0 <= i < list.len() ==> transition_views(list)[i] == list[i]@,
{
}

/// A refusal is seen by the texts it holds.
pub proof fn law_view_of_refusals(refusal: Refusal)
    ensures
        refusal matches Refusal::Message(text) ==> refusal@ == RefusalView::Message(text@),
        refusal matches Refusal::InvalidArgument { argument, reason } ==> refusal@ == (
        RefusalView::InvalidArgument { argument: argument@, reason: reason@ }),
        refusal matches Refusal::StaleTarget { target, reason, message } ==> refusal@ == (
        RefusalView::StaleTarget { target: target@, reason: reason@, message: message@ }),
        refusal matches Refusal::OutcomeUncertain { target, operation, reason } ==> refusal@ == (
        RefusalView::OutcomeUncertain {
            target: target@,
            operation: operation@,
            reason: reason@,
        }),
{
}

/// What a renumbering reports is seen entry by entry, and what it lists file by
/// file and change by change.
pub proof fn law_view_of_a_renumbering(
    entry: PageEntry,
    change: PageChange,
    edit: FileEdit,
    state: Renumbering,
    i: int,
)
    ensures
        entry@.sheet_name == entry.sheet_name@,
        entry@.file == entry.file@,
        entry@.page == entry.page@,
        change@.index == change.index,
        change@.sheet_uuid == change.sheet_uuid@,
        change@.page == change.page@,
        edit@.path == edit.path@,
        edit@.prefix == edit.prefix@,
        edit@.changes == change_views(edit.changes@),
        change_views(edit.changes@).len() == edit.changes@.len(),
        0 <= i < edit.changes@.len() ==> change_views(edit.changes@)[i] == edit.changes@[i]@,
        state@.next_page == state.next_page,
        state@.pages.len() == state.pages@.len(),
        0 <= i < state.pages@.len() ==> state@.pages[i] == state.pages@[i]@,
        state@.edits.len() == state.edits@.len(),
        0 <= i < state.edits@.len() ==> state@.edits[i] == state.edits@[i]@,
{
}

/// A node of a tree is seen by its description, its error and its own nodes, and
/// so is the tree.
pub proof fn law_view_of_a_tree(
    node: HierarchyNode,
    tree: Subtree,
    list: Seq<HierarchyNode>,
    i: int,
)
    ensures
        node@.sheet == node.sheet@,
        node@.error == text_of(node.error),
        node@.children.len() == node.children@.len(),
        0 <= i < node.children@.len() ==> node@.children[i] == node.children@[i]@,
        tree@.error == text_of(tree.error),
        tree@.children == node_views(tree.children@),
        node_views(list).len() == list.len(),
        0 <= i < list.len() ==> node_views(list)[i] == list[i]@,
{
}

/// An issue is seen by the sheet, the file and the names it lists.
pub proof fn law_view_of_issues(issue: SheetIssue, list: Seq<SheetIssue>, i: int)
    ensures
        issue matches SheetIssue::MissingChild { sheet, file } ==> issue@ == (
        IssueView::MissingChild { sheet: sheet@, file: file@ }),
        issue matches SheetIssue::Mismatch {
            sheet,
            file,
            labels_without_pins,
            pins_without_labels,
        } ==> issue@ == (IssueView::Mismatch {
            sheet: sheet@,
            file: file@,
            labels_without_pins: texts(labels_without_pins@),
            pins_without_labels: texts(pins_without_labels@),
        }),
        issue_views(list).len() == list.len(),
        0 <= i < list.len() ==> issue_views(list)[i] == list[i]@,
{
}

/// A file is seen by its two paths, by whether it is there, and by its document or
/// why that could not be loaded.
pub proof fn law_view_of_files(
    file: SchematicFile,
    document: SchematicDocument,
    error: String,
    stop: WalkStop,
    list: Seq<SchematicFile>,
    i: int,
)
    ensures
        file@.path == file.path@,
        file@.canonical == file.canonical@,
        file@.exists == file.exists,
        file.document == Ok::<SchematicDocument, String>(document) ==> file@.document == (
        DocumentView::Readable {
            sheets: sheet_views(document.sheets@),
            labels: label_views(document.labels@),
        }),
        file.document == Err::<SchematicDocument, String>(error) ==> file@.document
            == DocumentView::Unreadable(error@),
        stop matches WalkStop::Needed(path) ==> stop@ == StopView::Needed(path@),
        stop matches WalkStop::Unreadable(why) ==> stop@ == StopView::Unreadable(why@),
        stop is PageLimit ==> stop@ is PageLimit,
        file_views(list).len() == list.len(),
        0 <= i < list.len() ==> file_views(list)[i] == list[i]@,
{
}

/// A sheet of a document that is checked is seen by its UUID and its text, an
/// intent by what it expects, and an action by what it does.
pub proof fn law_view_of_a_commit(
    image: SheetImage,
    intent: SheetMutationIntent,
    action: CommitAction,
    list: Vec<SheetImage>,
    error: String,
    i: int,
)
    ensures
        image@.uuid == image.uuid@,
        image@.content == image.content@,
        intent matches SheetMutationIntent::Present { uuid, expected } ==> intent@ == (
        IntentView::Present { uuid: uuid@, expected: expected@ }),
        intent matches SheetMutationIntent::Absent { uuid } ==> intent@ == (IntentView::Absent {
            uuid: uuid@,
        }),
        action is Write ==> action@ is Write,
        action is Finish ==> action@ is Finish,
        action matches CommitAction::Refuse(refusal) ==> action@ == ActionView::Refuse(refusal@),
        image_views(list@).len() == list@.len(),
        0 <= i < list@.len() ==> image_views(list@)[i] == list@[i]@,
        read_view(Ok(list)) == ReadView::Sheets(image_views(list@)),
        read_view(Err(error)) == ReadView::Unreadable(error@),
{
}

/// An edge is seen by its line and its two ends.
pub proof fn law_view_of_an_edge(edge: SheetEdge)
    ensures
        edge@.axis == edge.axis,
        edge@.coordinate == edge.coordinate,
        edge@.span_axis == edge.span_axis,
        edge@.span_start == edge.span_start,
        edge@.span_end == edge.span_end,
{
}

/// A tool is seen by its name, what it does and its arguments, and an argument by
/// all that is said of it.
pub proof fn law_view_of_tools(tool: ToolDef, param: ToolParam, i: int)
    ensures
        tool@.name == tool.name@,
        tool@.description == tool.description@,
        tool@.params.len() == tool.params@.len(),
        0 <= i < tool.params@.len() ==> tool@.params[i] == tool.params@[i]@,
        param@.name == param.name@,
        param@.kind == param.kind,
        param.description is Some ==> param@.description == Some(param.description->0@),
        param.description is None ==> param@.description is None,
        param@.choices.len() == param.choices@.len(),
        0 <= i < param.choices@.len() ==> param@.choices[i] == param.choices@[i]@,
        param@.required == param.required,
{
}

} // verus!
