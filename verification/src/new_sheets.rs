//! Putting a new sheet into a schematic: one that refers to a child file, new or
//! already there, or a copy of another sheet with a child file of its own.

use crate::model::{find_sheet, lemma_sheet_named, sheet_named, sheet_views, Sheet, SheetView};
use crate::numeral::{decimal, to_decimal};
use crate::paths::{
    child_path, directory_of, is_same_path, is_sheet_file, is_valid_sheet_file, joined, names,
    origin, same_path,
};
use crate::refusal::{sheet_not_found, sheet_not_found_text, Refusal, RefusalView};
use crate::sheets::{law_next_page_is_free, max_page, next_free_page};
use crate::text::same_text;
use vstd::prelude::*;

verus! {

/// How far the copy of a sheet is put from the sheet, across and down: 20 mm.
pub const DUPLICATE_OFFSET: i64 = 20_000_000_000_000;

/// Where a sheet is put if the request does not say: 50 mm across and down.
pub const DEFAULT_POSITION: i64 = 50_000_000_000_000;

/// How wide a sheet is if the request does not say: 80 mm.
pub const DEFAULT_WIDTH: i64 = 80_000_000_000_000;

/// How high a sheet is if the request does not say: 50 mm.
pub const DEFAULT_HEIGHT: i64 = 50_000_000_000_000;

/// A sheet that is to be put into a schematic.
#[derive(Debug)]
pub struct NewSheet {
    pub name: String,
    pub file: String,
    pub x: i128,
    pub y: i128,
    pub width: i64,
    pub height: i64,
    pub page: String,
    pub child_path: String,
}

/// A [`NewSheet`] by its values.
#[verifier::ext_equal]
pub struct NewSheetView {
    pub name: Seq<char>,
    pub file: Seq<char>,
    pub x: int,
    pub y: int,
    pub width: i64,
    pub height: i64,
    pub page: Seq<char>,
    pub child_path: Seq<char>,
}

impl View for NewSheet {
    type V = NewSheetView;

    open spec fn view(&self) -> NewSheetView {
        NewSheetView {
            name: self.name@,
            file: self.file@,
            x: self.x as int,
            y: self.y as int,
            width: self.width,
            height: self.height,
            page: self.page@,
            child_path: self.child_path@,
        }
    }
}

/// The page number of the next sheet of a schematic, as text.
pub open spec fn next_page_text(sheets: Seq<SheetView>) -> Seq<char> {
    decimal((max_page(sheets) + 1) as nat)
}

/// A request to put a sheet into a schematic.
#[derive(Debug)]
pub struct AddSheetRequest {
    pub schematic: String,
    pub sheet_file: String,
    pub sheet_name: Option<String>,
    pub x: Option<i64>,
    pub y: Option<i64>,
    pub width: Option<i64>,
    pub height: Option<i64>,
}

pub open spec fn given_or(value: Option<i64>, default: i64) -> i64 {
    match value {
        Some(v) => v,
        None => default,
    }
}

impl AddSheetRequest {
    /// The name of the new sheet.
    pub open spec fn name(&self) -> Seq<char> {
        match self.sheet_name {
            Some(name) => name@,
            None => "Sheet"@,
        }
    }

    /// The path of the child file.
    pub open spec fn child(&self) -> Seq<char> {
        joined(directory_of(self.schematic@), self.sheet_file@)
    }
}

/// Why the file of a new sheet is refused, if it is.
pub open spec fn sheet_file_refusal(
    request: AddSheetRequest,
    directory_exists: bool,
) -> Option<RefusalView> {
    if !is_sheet_file(request.sheet_file@) {
        Some(
            RefusalView::Message(
                "sheet_file must be a relative .kicad_sch path without parent traversal"@,
            ),
        )
    } else if !directory_exists {
        Some(RefusalView::Message("The child sheet directory does not exist"@))
    } else if is_same_path(request.child(), request.schematic@) {
        Some(RefusalView::Message("A hierarchical sheet cannot reference its parent file"@))
    } else {
        None
    }
}

/// Check the file of a new sheet before the schematic is read. Gives the path of
/// the child file. `directory_exists` says whether the directory of that path is
/// on disk.
pub fn check_sheet_file(request: &AddSheetRequest, directory_exists: bool) -> (path: Result<
    String,
    Refusal,
>)
    ensures
        match path {
            Ok(path) => sheet_file_refusal(*request, directory_exists) is None && path@
                == request.child(),
            Err(refusal) => sheet_file_refusal(*request, directory_exists) == Some(refusal@),
        },
{
    let path = child_path(request.schematic.as_str(), request.sheet_file.as_str());
    if !is_valid_sheet_file(request.sheet_file.as_str()) {
        return Err(
            Refusal::Message(
                "sheet_file must be a relative .kicad_sch path without parent traversal".to_owned(),
            ),
        );
    }
    if !directory_exists {
        return Err(Refusal::Message("The child sheet directory does not exist".to_owned()));
    }
    if same_path(path.as_str(), request.schematic.as_str()) {
        return Err(
            Refusal::Message("A hierarchical sheet cannot reference its parent file".to_owned()),
        );
    }
    Ok(path)
}

/// What is found at the path of a child file.
#[derive(Clone, Copy, Debug, PartialEq, Eq, Structural)]
pub enum OnDisk {
    /// Nothing.
    Nothing,
    /// A regular file.
    File,
    /// Something that is not a regular file.
    Other,
}

pub open spec fn name_taken_text(name: Seq<char>) -> Seq<char> {
    "Sheet named '"@ + name
        + "' already exists in this schematic — use edit_sheet to modify it or pick a different name"@
}

/// Why a request to put a sheet into the schematic is refused once the schematic
/// has been read, if it is.
pub open spec fn add_sheet_refusal(
    sheets: Seq<SheetView>,
    request: AddSheetRequest,
    child: OnDisk,
) -> Option<RefusalView> {
    if sheet_named(sheets, request.name(), 0) is Some {
        Some(RefusalView::Message(name_taken_text(request.name())))
    } else if child == OnDisk::Other {
        Some(
            RefusalView::Message("The child schematic path exists but is not a regular file"@),
        )
    } else {
        None
    }
}

/// The sheet that the request asks for.
pub open spec fn requested_sheet(
    sheets: Seq<SheetView>,
    request: AddSheetRequest,
) -> NewSheetView {
    NewSheetView {
        name: request.name(),
        file: request.sheet_file@,
        x: given_or(request.x, DEFAULT_POSITION) as int,
        y: given_or(request.y, DEFAULT_POSITION) as int,
        width: given_or(request.width, DEFAULT_WIDTH),
        height: given_or(request.height, DEFAULT_HEIGHT),
        page: next_page_text(sheets),
        child_path: request.child(),
    }
}

fn given_or_default(value: Option<i64>, default: i64) -> (v: i64)
    ensures
        v == given_or(value, default),
{
    match value {
        Some(v) => v,
        None => default,
    }
}

/// Check a request to put a sheet into the schematic, once that has been read.
pub fn check_new_sheet(sheets: &Vec<Sheet>, request: &AddSheetRequest, child: OnDisk) -> (
verdict: Result<(), Refusal>)
    ensures
        match verdict {
            Ok(_) => add_sheet_refusal(sheet_views(sheets@), *request, child) is None,
            Err(refusal) => add_sheet_refusal(sheet_views(sheets@), *request, child) == Some(
                refusal@,
            ),
        },
{
    let name: &str = match &request.sheet_name {
        Some(name) => name.as_str(),
        None => "Sheet",
    };
    if find_sheet(sheets, name).is_some() {
        let mut message = "Sheet named '".to_owned();
        message.append(name);
        message.append(
            "' already exists in this schematic — use edit_sheet to modify it or pick a different name",
        );
        return Err(Refusal::Message(message));
    }
    if child == OnDisk::Other {
        return Err(
            Refusal::Message(
                "The child schematic path exists but is not a regular file".to_owned(),
            ),
        );
    }
    Ok(())
}

/// Plan a new sheet that refers to a child file. There has to be a page number
/// left for it.
pub fn plan_new_sheet(
    sheets: &Vec<Sheet>,
    request: &AddSheetRequest,
    child: OnDisk,
) -> (plan: Result<NewSheet, Refusal>)
    requires
        add_sheet_refusal(sheet_views(sheets@), *request, child) is None ==> max_page(
            sheet_views(sheets@),
        ) < u32::MAX,
    ensures
        match plan {
            Ok(sheet) => add_sheet_refusal(sheet_views(sheets@), *request, child) is None && sheet@
                == requested_sheet(sheet_views(sheets@), *request),
            Err(refusal) => add_sheet_refusal(sheet_views(sheets@), *request, child) == Some(
                refusal@,
            ),
        },
{
    if let Err(refusal) = check_new_sheet(sheets, request, child) {
        return Err(refusal);
    }
    let name: String = match &request.sheet_name {
        Some(name) => name.clone(),
        None => "Sheet".to_owned(),
    };
    let page = to_decimal(next_free_page(sheets) as u128);
    Ok(
        NewSheet {
            name,
            file: request.sheet_file.clone(),
            x: given_or_default(request.x, DEFAULT_POSITION) as i128,
            y: given_or_default(request.y, DEFAULT_POSITION) as i128,
            width: given_or_default(request.width, DEFAULT_WIDTH),
            height: given_or_default(request.height, DEFAULT_HEIGHT),
            page,
            child_path: child_path(request.schematic.as_str(), request.sheet_file.as_str()),
        },
    )
}

/// A request to copy a sheet together with its child file.
#[derive(Debug)]
pub struct DuplicateRequest {
    pub schematic: String,
    pub source_name: String,
    pub new_name: String,
    pub new_file: String,
}

impl DuplicateRequest {
    /// The path of the new child file.
    pub open spec fn new_child(&self) -> Seq<char> {
        joined(directory_of(self.schematic@), self.new_file@)
    }
}

/// What is found on disk for a copy of a sheet.
#[derive(Clone, Copy, Debug, PartialEq, Eq, Structural)]
pub struct DuplicateOnDisk {
    /// The directory of the new child file.
    pub directory_exists: bool,
    /// The new child file.
    pub new_exists: bool,
    /// The child file of the sheet that is copied.
    pub source_exists: bool,
}

/// The path of the child file of the sheet that is copied; none if there is no
/// such sheet.
pub fn duplicate_source(sheets: &Vec<Sheet>, request: &DuplicateRequest) -> (path: Option<String>)
    ensures
        match sheet_named(sheet_views(sheets@), request.source_name@, 0) {
            Some(i) => path matches Some(p) && p@ == joined(
                directory_of(request.schematic@),
                sheet_views(sheets@)[i].file,
            ),
            None => path is None,
        },
{
    match find_sheet(sheets, request.source_name.as_str()) {
        Some(i) => {
            assert(sheet_views(sheets@)[i as int] == sheets@[i as int]@);
            Some(child_path(request.schematic.as_str(), sheets[i].file.as_str()))
        },
        None => None,
    }
}

pub open spec fn copy_name_taken_text(name: Seq<char>) -> Seq<char> {
    "Sheet named '"@ + name + "' already exists"@
}

pub open spec fn copy_file_taken_text(file: Seq<char>) -> Seq<char> {
    "'"@ + file
        + "' already exists — pick a different file name, or use add_hierarchical_sheet to link the existing file instead of duplicating"@
}

pub open spec fn source_missing_text(file: Seq<char>) -> Seq<char> {
    "Source sheet's file '"@ + file + "' was not found on disk — cannot duplicate"@
}

/// Why a request to copy a sheet is refused, if it is.
pub open spec fn duplicate_refusal(
    sheets: Seq<SheetView>,
    request: DuplicateRequest,
    disk: DuplicateOnDisk,
) -> Option<RefusalView> {
    if sheet_named(sheets, request.new_name@, 0) is Some {
        Some(RefusalView::Message(copy_name_taken_text(request.new_name@)))
    } else {
        match sheet_named(sheets, request.source_name@, 0) {
            None => Some(RefusalView::Message(sheet_not_found_text(request.source_name@))),
            Some(i) => if !is_sheet_file(request.new_file@) || !disk.directory_exists {
                Some(
                    RefusalView::Message(
                        "new_file must be a relative .kicad_sch path in an existing project directory"@,
                    ),
                )
            } else if disk.new_exists {
                Some(RefusalView::Message(copy_file_taken_text(request.new_file@)))
            } else if !disk.source_exists {
                Some(RefusalView::Message(source_missing_text(sheets[i].file)))
            } else {
                None
            },
        }
    }
}

/// The copy that the request asks for: a box as large as that of the sheet that
/// is copied, shifted across and down. Where that sheet is larger than the shift
/// both ways, the two boxes overlap.
pub open spec fn copied_sheet(
    sheets: Seq<SheetView>,
    request: DuplicateRequest,
) -> NewSheetView {
    let source = sheets[sheet_named(sheets, request.source_name@, 0)->0];
    NewSheetView {
        name: request.new_name@,
        file: request.new_file@,
        x: source.x + DUPLICATE_OFFSET,
        y: source.y + DUPLICATE_OFFSET,
        width: source.width,
        height: source.height,
        page: next_page_text(sheets),
        child_path: request.new_child(),
    }
}

/// Check a request to copy a sheet.
pub fn check_duplicate(
    sheets: &Vec<Sheet>,
    request: &DuplicateRequest,
    disk: DuplicateOnDisk,
) -> (source: Result<usize, Refusal>)
    ensures
        match source {
            Ok(i) => duplicate_refusal(sheet_views(sheets@), *request, disk) is None && i
                < sheets@.len() && sheet_named(sheet_views(sheets@), request.source_name@, 0)
                == Some(i as int),
            Err(refusal) => duplicate_refusal(sheet_views(sheets@), *request, disk) == Some(
                refusal@,
            ),
        },
{
    if find_sheet(sheets, request.new_name.as_str()).is_some() {
        let mut message = "Sheet named '".to_owned();
        message.append(request.new_name.as_str());
        message.append("' already exists");
        return Err(Refusal::Message(message));
    }
    let i = match find_sheet(sheets, request.source_name.as_str()) {
        Some(i) => i,
        None => {
            return Err(sheet_not_found(request.source_name.as_str()));
        },
    };
    assert(sheet_views(sheets@)[i as int] == sheets@[i as int]@);
    if !is_valid_sheet_file(request.new_file.as_str()) || !disk.directory_exists {
        return Err(
            Refusal::Message(
                "new_file must be a relative .kicad_sch path in an existing project directory".to_owned(),
            ),
        );
    }
    if disk.new_exists {
        let mut message = "'".to_owned();
        message.append(request.new_file.as_str());
        message.append(
            "' already exists — pick a different file name, or use add_hierarchical_sheet to link the existing file instead of duplicating",
        );
        return Err(Refusal::Message(message));
    }
    if !disk.source_exists {
        let mut message = "Source sheet's file '".to_owned();
        message.append(sheets[i].file.as_str());
        message.append("' was not found on disk — cannot duplicate");
        return Err(Refusal::Message(message));
    }
    Ok(i)
}

/// Plan a copy of a sheet with a child file of its own. There has to be a page
/// number left for it.
pub fn plan_duplicate(
    sheets: &Vec<Sheet>,
    request: &DuplicateRequest,
    disk: DuplicateOnDisk,
) -> (plan: Result<NewSheet, Refusal>)
    requires
        duplicate_refusal(sheet_views(sheets@), *request, disk) is None ==> max_page(
            sheet_views(sheets@),
        ) < u32::MAX,
    ensures
        match plan {
            Ok(sheet) => duplicate_refusal(sheet_views(sheets@), *request, disk) is None && sheet@
                == copied_sheet(sheet_views(sheets@), *request),
            Err(refusal) => duplicate_refusal(sheet_views(sheets@), *request, disk) == Some(
                refusal@,
            ),
        },
{
    let i = match check_duplicate(sheets, request, disk) {
        Ok(i) => i,
        Err(refusal) => {
            return Err(refusal);
        },
    };
    assert(sheet_views(sheets@)[i as int] == sheets@[i as int]@);
    let page = to_decimal(next_free_page(sheets) as u128);
    Ok(
        NewSheet {
            name: request.new_name.clone(),
            file: request.new_file.clone(),
            x: sheets[i].x as i128 + DUPLICATE_OFFSET as i128,
            y: sheets[i].y as i128 + DUPLICATE_OFFSET as i128,
            width: sheets[i].width,
            height: sheets[i].height,
            page,
            child_path: child_path(request.schematic.as_str(), request.new_file.as_str()),
        },
    )
}

/// The instance path of the sheets of a root schematic: `/<uuid>`.
pub open spec fn root_instance_path(root_uuid: Seq<char>) -> Seq<char> {
    "/"@ + root_uuid
}

/// The instance path of what is in a sheet: that of the sheet's own schematic,
/// with the UUID of the sheet added.
pub open spec fn sheet_instance_path(prefix: Seq<char>, sheet_uuid: Seq<char>) -> Seq<char> {
    prefix + "/"@ + sheet_uuid
}

/// The instance path of the sheets of a root schematic.
pub fn root_instance(root_uuid: &str) -> (path: String)
    ensures
        path@ == root_instance_path(root_uuid@),
{
    let mut path = "/".to_owned();
    path.append(root_uuid);
    path
}

/// The instance path of what is in a sheet.
pub fn sheet_instance(prefix: &str, sheet_uuid: &str) -> (path: String)
    ensures
        path@ == sheet_instance_path(prefix@, sheet_uuid@),
{
    let mut path = prefix.to_owned();
    path.append("/");
    path.append(sheet_uuid);
    path
}

/// A change of one file on disk.
#[derive(Debug)]
pub enum FileTransition {
    /// The file holds `before` and is to hold `after`.
    Replace { path: String, before: String, after: String },
    /// The file is not there and is to hold `content`.
    Create { path: String, content: String },
}

/// A [`FileTransition`] by its texts.
pub enum TransitionView {
    Replace { path: Seq<char>, before: Seq<char>, after: Seq<char> },
    Create { path: Seq<char>, content: Seq<char> },
}

impl View for FileTransition {
    type V = TransitionView;

    open spec fn view(&self) -> TransitionView {
        match self {
            FileTransition::Replace { path, before, after } => TransitionView::Replace {
                path: path@,
                before: before@,
                after: after@,
            },
            FileTransition::Create { path, content } => TransitionView::Create {
                path: path@,
                content: content@,
            },
        }
    }
}

pub open spec fn transition_views(transitions: Seq<FileTransition>) -> Seq<TransitionView> {
    transitions.map_values(|t: FileTransition| t@)
}

/// The change of a file that is to hold `after`; none where it holds that already.
pub fn transition_if_changed(path: &str, before: String, after: String) -> (transition: Option<
    FileTransition,
>)
    ensures
        match transition {
            Some(found) => before@ != after@ && found@ == (TransitionView::Replace {
                path: path@,
                before: before@,
                after: after@,
            }),
            None => before@ == after@,
        },
{
    if same_text(before.as_str(), after.as_str()) {
        None
    } else {
        Some(FileTransition::Replace { path: path.to_owned(), before, after })
    }
}

/// A child document whose symbols were given an instance path.
#[derive(Debug)]
pub struct PatchedDocument {
    pub text: String,
    pub patched: usize,
}

/// The child document of a new sheet.
#[derive(Debug)]
pub enum ChildDocument {
    /// There is none yet; it is to hold that text.
    Blank(String),
    /// There is one. Where some of its symbols need the instance path of the new
    /// sheet, the document with the path is at hand.
    Existing { before: String, linked: Option<PatchedDocument> },
}

/// The changes of files that put a sheet into its schematic.
pub open spec fn new_sheet_transitions(
    parent_path: Seq<char>,
    parent_before: Seq<char>,
    parent_after: Seq<char>,
    child_path: Seq<char>,
    child: ChildDocument,
) -> Seq<TransitionView> {
    let parent = TransitionView::Replace {
        path: parent_path,
        before: parent_before,
        after: parent_after,
    };
    match child {
        ChildDocument::Blank(text) => seq![
            parent,
            TransitionView::Create { path: child_path, content: text@ },
        ],
        ChildDocument::Existing { before, linked: Some(document) } => seq![
            parent,
            TransitionView::Replace {
                path: child_path,
                before: before@,
                after: document.text@,
            },
        ],
        ChildDocument::Existing { before, linked: None } => seq![parent],
    }
}

/// How many symbols of the child were given an instance path.
pub open spec fn patched_count(child: ChildDocument) -> usize {
    match child {
        ChildDocument::Existing { before, linked: Some(document) } => document.patched,
        _ => 0,
    }
}

/// The changes of files that put a sheet into its schematic, and how many symbols
/// of the child were given an instance path.
pub fn link_transitions(
    parent_path: &str,
    parent_before: String,
    parent_after: String,
    child_path: &str,
    child: ChildDocument,
) -> (plan: (Vec<FileTransition>, usize))
    ensures
        transition_views(plan.0@) == new_sheet_transitions(
            parent_path@,
            parent_before@,
            parent_after@,
            child_path@,
            child,
        ),
        plan.1 == patched_count(child),
{
    let ghost expected = new_sheet_transitions(
        parent_path@,
        parent_before@,
        parent_after@,
        child_path@,
        child,
    );
    let mut transitions: Vec<FileTransition> = Vec::new();
    transitions.push(
        FileTransition::Replace {
            path: parent_path.to_owned(),
            before: parent_before,
            after: parent_after,
        },
    );
    let mut patched: usize = 0;
    match child {
        ChildDocument::Blank(text) => {
            transitions.push(
                FileTransition::Create { path: child_path.to_owned(), content: text },
            );
        },
        ChildDocument::Existing { before, linked } => {
            if let Some(document) = linked {
                patched = document.patched;
                transitions.push(
                    FileTransition::Replace {
                        path: child_path.to_owned(),
                        before,
                        after: document.text,
                    },
                );
            }
        },
    }
    assert(transition_views(transitions@) =~= expected);
    (transitions, patched)
}

/// The changes of files that put a copy of a sheet into its schematic: the new
/// child file holds the copied text, with the instance path of the new sheet where
/// symbols needed it.
pub open spec fn copied_sheet_transitions(
    parent_path: Seq<char>,
    parent_before: Seq<char>,
    parent_after: Seq<char>,
    new_child: Seq<char>,
    copy: Seq<char>,
    linked: Option<PatchedDocument>,
) -> Seq<TransitionView> {
    seq![
        TransitionView::Replace {
            path: parent_path,
            before: parent_before,
            after: parent_after,
        },
        TransitionView::Create {
            path: new_child,
            content: match linked {
                Some(document) => document.text@,
                None => copy,
            },
        },
    ]
}

/// The changes of files that put a copy of a sheet into its schematic, and how
/// many symbols of the copy were given an instance path.
pub fn copy_transitions(
    parent_path: &str,
    parent_before: String,
    parent_after: String,
    new_child: &str,
    copy: String,
    linked: Option<PatchedDocument>,
) -> (plan: (Vec<FileTransition>, usize))
    ensures
        transition_views(plan.0@) == copied_sheet_transitions(
            parent_path@,
            parent_before@,
            parent_after@,
            new_child@,
            copy@,
            linked,
        ),
        plan.1 == (match linked {
            Some(document) => document.patched,
            None => 0,
        }),
{
    let ghost expected = copied_sheet_transitions(
        parent_path@,
        parent_before@,
        parent_after@,
        new_child@,
        copy@,
        linked,
    );
    let (content, patched) = match linked {
        Some(document) => (document.text, document.patched),
        None => (copy, 0),
    };
    let mut transitions: Vec<FileTransition> = Vec::new();
    transitions.push(
        FileTransition::Replace {
            path: parent_path.to_owned(),
            before: parent_before,
            after: parent_after,
        },
    );
    transitions.push(FileTransition::Create { path: new_child.to_owned(), content });
    assert(transition_views(transitions@) =~= expected);
    (transitions, patched)
}

/// A new sheet takes a name and a page number that no sheet of the schematic has.
pub proof fn law_new_sheet_is_told_apart(
    sheets: Seq<SheetView>,
    request: AddSheetRequest,
    child: OnDisk,
)
    requires
        max_page(sheets) < u32::MAX,
        add_sheet_refusal(sheets, request, child) is None,
    ensures
        ({
            let sheet = requested_sheet(sheets, request);
            forall|i: int|
                0 <= i < sheets.len() ==> (#[trigger] sheets[i]).name != sheet.name
                    && sheets[i].page != Some(sheet.page)
        }),
{
    lemma_sheet_named(sheets, request.name(), 0);
    law_next_page_is_free(sheets);
}

/// A new sheet never refers to the schematic it is put into.
pub proof fn law_new_sheet_is_not_its_parent(request: AddSheetRequest, directory_exists: bool)
    requires
        sheet_file_refusal(request, directory_exists) is None,
    ensures
        directory_exists,
        is_sheet_file(request.sheet_file@),
        origin(request.child()) != origin(request.schematic@) || names(request.child())
            != names(request.schematic@),
{
}

/// A copy takes a name and a page number that no sheet of the schematic has, a
/// box of the same size shifted by the same length across and down, and a child
/// file that is not there yet. The boxes do not overlap exactly where the source
/// is no wider, or no higher, than the shift.
pub proof fn law_copy_is_shifted_from_its_source(
    sheets: Seq<SheetView>,
    request: DuplicateRequest,
    disk: DuplicateOnDisk,
)
    requires
        max_page(sheets) < u32::MAX,
        duplicate_refusal(sheets, request, disk) is None,
    ensures
        ({
            let i = sheet_named(sheets, request.source_name@, 0)->0;
            let copy = copied_sheet(sheets, request);
            &&& 0 <= i < sheets.len()
            &&& !disk.new_exists
            &&& disk.source_exists
            &&& copy.width == sheets[i].width && copy.height == sheets[i].height
            &&& copy.x - sheets[i].x == DUPLICATE_OFFSET && copy.y - sheets[i].y
                == DUPLICATE_OFFSET
            &&& (sheets[i].x + sheets[i].width <= copy.x || sheets[i].y + sheets[i].height
                <= copy.y) <==> (sheets[i].width <= DUPLICATE_OFFSET || sheets[i].height
                <= DUPLICATE_OFFSET)
            &&& forall|j: int|
                0 <= j < sheets.len() ==> (#[trigger] sheets[j]).name != copy.name
                    && sheets[j].page != Some(copy.page)
        }),
{
    lemma_sheet_named(sheets, request.new_name@, 0);
    lemma_sheet_named(sheets, request.source_name@, 0);
    law_next_page_is_free(sheets);
}

/// The paths of two sheets of one schematic are the same only where the sheets
/// have the same UUID.
pub proof fn law_sheet_instances_differ(prefix: Seq<char>, a: Seq<char>, b: Seq<char>)
    requires
        sheet_instance_path(prefix, a) == sheet_instance_path(prefix, b),
    ensures
        a == b,
{
    let lead = prefix + "/"@;
    assert(sheet_instance_path(prefix, a).skip(lead.len() as int) =~= a);
    assert(sheet_instance_path(prefix, b).skip(lead.len() as int) =~= b);
}

} // verus!
