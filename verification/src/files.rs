//! The files of a project as they were found on disk, for the walks that follow
//! sheets from one file to the next.

use crate::model::{label_views, sheet_views, HierarchicalLabel, LabelView, Sheet, SheetView};
use crate::paths::{directory_of, joined};
use crate::refusal::{schematic_not_found, schematic_not_found_text, Refusal, RefusalView};
use crate::text::same_text;
use vstd::prelude::*;

verus! {

/// How many levels of sheets below the root a walk looks into.
pub const MAX_HIERARCHY_DEPTH: usize = 20;

/// What the walks read of a schematic.
#[derive(Debug)]
pub struct SchematicDocument {
    pub sheets: Vec<Sheet>,
    pub labels: Vec<HierarchicalLabel>,
}

/// A path, and what was found there: the path by which the file is told from
/// others, whether anything is there at all, and the document or why it could not
/// be loaded.
#[derive(Debug)]
pub struct SchematicFile {
    pub path: String,
    pub canonical: String,
    pub exists: bool,
    pub document: Result<SchematicDocument, String>,
}

/// What a file holds, by its values.
pub enum DocumentView {
    Readable { sheets: Seq<SheetView>, labels: Seq<LabelView> },
    Unreadable(Seq<char>),
}

/// A [`SchematicFile`] by its values.
pub struct FileView {
    pub path: Seq<char>,
    pub canonical: Seq<char>,
    pub exists: bool,
    pub document: DocumentView,
}

pub open spec fn document_view(document: Result<SchematicDocument, String>) -> DocumentView {
    match document {
        Ok(found) => DocumentView::Readable {
            sheets: sheet_views(found.sheets@),
            labels: label_views(found.labels@),
        },
        Err(error) => DocumentView::Unreadable(error@),
    }
}

impl View for SchematicFile {
    type V = FileView;

    open spec fn view(&self) -> FileView {
        FileView {
            path: self.path@,
            canonical: self.canonical@,
            exists: self.exists,
            document: document_view(self.document),
        }
    }
}

pub open spec fn file_views(files: Seq<SchematicFile>) -> Seq<FileView> {
    files.map_values(|f: SchematicFile| f@)
}

/// The first file listed under that path, from position `from` on.
pub open spec fn file_at(files: Seq<FileView>, path: Seq<char>, from: int) -> Option<int>
    decreases files.len() - from,
{
    if from >= files.len() {
        None
    } else if files[from].path == path {
        Some(from)
    } else {
        file_at(files, path, from + 1)
    }
}

pub proof fn lemma_file_at(files: Seq<FileView>, path: Seq<char>, from: int)
    requires
        0 <= from,
    ensures
        match file_at(files, path, from) {
            Some(i) => from <= i < files.len() && files[i].path == path,
            None => forall|i: int| from <= i < files.len() ==> (#[trigger] files[i]).path != path,
        },
    decreases files.len() - from,
{
    if from < files.len() && files[from].path != path {
        lemma_file_at(files, path, from + 1);
    }
}

/// Find the file listed under a path.
pub fn find_file(files: &Vec<SchematicFile>, path: &str) -> (at: Option<usize>)
    ensures
        match at {
            Some(i) => i < files@.len() && file_at(file_views(files@), path@, 0) == Some(i as int)
                && file_views(files@)[i as int] == files@[i as int]@,
            None => file_at(file_views(files@), path@, 0) is None,
        },
{
    let mut i: usize = 0;
    while i < files.len()
        invariant
            i <= files@.len(),
            file_at(file_views(files@), path@, 0) == file_at(
                file_views(files@),
                path@,
                i as int,
            ),
        decreases files@.len() - i,
    {
        assert(file_views(files@)[i as int] == files@[i as int]@);
        if same_text(files[i].path.as_str(), path) {
            return Some(i);
        }
        i += 1;
    }
    None
}

/// Every path that a sheet of a listed file refers to is listed.
pub open spec fn is_closed(files: Seq<FileView>) -> bool {
    forall|i: int, k: int|
        #![trigger sheets_of(files[i])[k]]
        0 <= i < files.len() && 0 <= k < sheets_of(files[i]).len() ==> file_at(
            files,
            joined(
                directory_of(files[i].path),
                sheets_of(files[i])[k].file,
            ),
            0,
        ) is Some
}

/// The sheets of a file; none if it cannot be loaded.
pub open spec fn sheets_of(file: FileView) -> Seq<SheetView> {
    match file.document {
        DocumentView::Readable { sheets, labels } => sheets,
        DocumentView::Unreadable(_) => seq![],
    }
}

/// Why a walk could not come to its end.
#[derive(Debug)]
pub enum WalkStop {
    /// The file at that path has to be listed first.
    Needed(String),
    /// A file that the walk rests on could not be loaded.
    Unreadable(String),
    /// There are more sheets than there are page numbers.
    PageLimit,
}

/// A [`WalkStop`] by its texts.
pub enum StopView {
    Needed(Seq<char>),
    Unreadable(Seq<char>),
    PageLimit,
}

impl View for WalkStop {
    type V = StopView;

    open spec fn view(&self) -> StopView {
        match self {
            WalkStop::Needed(path) => StopView::Needed(path@),
            WalkStop::Unreadable(error) => StopView::Unreadable(error@),
            WalkStop::PageLimit => StopView::PageLimit,
        }
    }
}

/// Refuse to walk from a root schematic that is not on disk.
pub fn require_schematic(path: &str, exists: bool) -> (verdict: Result<(), Refusal>)
    ensures
        match verdict {
            Ok(_) => exists,
            Err(refusal) => !exists && refusal@ == RefusalView::Message(
                schematic_not_found_text(path@),
            ),
        },
{
    if exists {
        Ok(())
    } else {
        Err(schematic_not_found(path))
    }
}

} // verus!
