//! Giving the sheets of a whole tree sequential page numbers, depth first.

use crate::files::{
    file_at, file_views, find_file, lemma_file_at, DocumentView, FileView,
    SchematicFile, StopView, WalkStop,
};
use crate::model::{sheet_views, Sheet, SheetView};
use crate::new_sheets::{root_instance, root_instance_path, sheet_instance, sheet_instance_path};
use crate::numeral::{decimal, to_decimal};
use crate::paths::{directory_of, join_path, joined, parent_dir};
use crate::text::{contains_text, same_text, texts};
use vstd::prelude::*;

verus! {

/// The page that a sheet was given, as the report lists it.
#[derive(Debug)]
pub struct PageEntry {
    pub sheet_name: String,
    pub file: String,
    pub page: String,
}

/// A [`PageEntry`] by its texts.
#[verifier::ext_equal]
pub struct PageView {
    pub sheet_name: Seq<char>,
    pub file: Seq<char>,
    pub page: Seq<char>,
}

impl View for PageEntry {
    type V = PageView;

    open spec fn view(&self) -> PageView {
        PageView { sheet_name: self.sheet_name@, file: self.file@, page: self.page@ }
    }
}

/// A sheet of a file whose page number changes: its place among the sheets of the
/// file, its UUID, and the new page.
#[derive(Debug)]
pub struct PageChange {
    pub index: usize,
    pub sheet_uuid: String,
    pub page: String,
}

/// A [`PageChange`] by its values.
#[verifier::ext_equal]
pub struct ChangeView {
    pub index: int,
    pub sheet_uuid: Seq<char>,
    pub page: Seq<char>,
}

impl View for PageChange {
    type V = ChangeView;

    open spec fn view(&self) -> ChangeView {
        ChangeView { index: self.index as int, sheet_uuid: self.sheet_uuid@, page: self.page@ }
    }
}

pub open spec fn change_views(changes: Seq<PageChange>) -> Seq<ChangeView> {
    changes.map_values(|c: PageChange| c@)
}

/// A file that has to be written: the instance path of its sheets, and the pages
/// that change.
#[derive(Debug)]
pub struct FileEdit {
    pub path: String,
    pub prefix: String,
    pub changes: Vec<PageChange>,
}

/// A [`FileEdit`] by its values.
#[verifier::ext_equal]
pub struct EditView {
    pub path: Seq<char>,
    pub prefix: Seq<char>,
    pub changes: Seq<ChangeView>,
}

impl View for FileEdit {
    type V = EditView;

    open spec fn view(&self) -> EditView {
        EditView { path: self.path@, prefix: self.prefix@, changes: change_views(self.changes@) }
    }
}

/// How far the numbering has come: the next page number, the pages given so far,
/// and the files to write.
#[derive(Debug)]
pub struct Renumbering {
    pub next_page: u32,
    pub pages: Vec<PageEntry>,
    pub edits: Vec<FileEdit>,
}

/// A [`Renumbering`] by its values.
#[verifier::ext_equal]
pub struct RenumberView {
    pub next_page: nat,
    pub pages: Seq<PageView>,
    pub edits: Seq<EditView>,
}

impl View for Renumbering {
    type V = RenumberView;

    open spec fn view(&self) -> RenumberView {
        RenumberView {
            next_page: self.next_page as nat,
            pages: self.pages@.map_values(|p: PageEntry| p@),
            edits: self.edits@.map_values(|e: FileEdit| e@),
        }
    }
}

/// How many of the files are not among the ancestors.
pub open spec fn fresh_files(files: Seq<FileView>, ancestors: Seq<Seq<char>>) -> nat
    decreases files.len(),
{
    if files.len() == 0 {
        0
    } else {
        fresh_files(files.drop_last(), ancestors) + if ancestors.contains(
            files.last().canonical,
        ) {
            0nat
        } else {
            1nat
        }
    }
}

proof fn lemma_fresh_files(files: Seq<FileView>, ancestors: Seq<Seq<char>>, name: Seq<char>)
    ensures
        fresh_files(files, ancestors.push(name)) <= fresh_files(files, ancestors),
    decreases files.len(),
{
    if files.len() > 0 {
        lemma_fresh_files(files.drop_last(), ancestors, name);
        let last = files.last().canonical;
        if ancestors.contains(last) {
            let j = choose|j: int| 0 <= j < ancestors.len() && ancestors[j] == last;
            assert(ancestors.push(name)[j] == last);
        }
    }
}

/// A file that becomes an ancestor leaves fewer that are none.
pub proof fn lemma_ancestor_is_not_fresh(
    files: Seq<FileView>,
    ancestors: Seq<Seq<char>>,
    i: int,
)
    requires
        0 <= i < files.len(),
        !ancestors.contains(files[i].canonical),
    ensures
        fresh_files(files, ancestors.push(files[i].canonical)) < fresh_files(files, ancestors),
    decreases files.len(),
{
    let name = files[i].canonical;
    let shorter = files.drop_last();
    if i == files.len() - 1 {
        lemma_fresh_files(shorter, ancestors, name);
        assert(ancestors.push(name)[ancestors.len() as int] == name);
    } else {
        assert(shorter[i] == files[i]);
        lemma_ancestor_is_not_fresh(shorter, ancestors, i);
        let last = files.last().canonical;
        if ancestors.contains(last) {
            let j = choose|j: int| 0 <= j < ancestors.len() && ancestors[j] == last;
            assert(ancestors.push(name)[j] == last);
        }
    }
}

/// The pages that change among the first `n` sheets, where `assigned` are the
/// page numbers that the sheets are to have.
pub open spec fn page_changes(
    sheets: Seq<SheetView>,
    assigned: Seq<nat>,
    n: nat,
) -> Seq<ChangeView>
    decreases n,
{
    if n == 0 {
        seq![]
    } else {
        let k = n - 1;
        let before = page_changes(sheets, assigned, k as nat);
        if sheets[k].page == Some(decimal(assigned[k])) {
            before
        } else {
            before.push(
                ChangeView {
                    index: k,
                    sheet_uuid: sheets[k].uuid,
                    page: decimal(assigned[k]),
                },
            )
        }
    }
}

/// A sheet takes the next page number.
pub open spec fn numbered(state: RenumberView, sheet: SheetView) -> RenumberView {
    RenumberView {
        next_page: state.next_page + 1,
        pages: state.pages.push(
            PageView {
                sheet_name: sheet.name,
                file: sheet.file,
                page: decimal(state.next_page),
            },
        ),
        ..state
    }
}

/// A file whose sheets and their descendants have been numbered. It is written
/// where one of its pages changes. A root that has just gained its UUID is also
/// written where a page below it changes: that page is kept under an instance
/// path that begins with this UUID.
pub open spec fn with_file_edit(
    state: RenumberView,
    edit: EditView,
    gained_uuid: bool,
) -> RenumberView {
    if edit.changes.len() > 0 || (gained_uuid && state.edits.len() > 0) {
        RenumberView { edits: state.edits.push(edit), ..state }
    } else {
        state
    }
}

/// Number the sheets of a file and what is below them. A file that is its own
/// ancestor is passed over.
pub open spec fn renumber_file(
    files: Seq<FileView>,
    path: Seq<char>,
    prefix: Seq<char>,
    ancestors: Seq<Seq<char>>,
    gained_uuid: bool,
    state: RenumberView,
) -> Result<RenumberView, StopView>
    decreases fresh_files(files, ancestors), 0nat, 0nat,
{
    match file_at(files, path, 0) {
        None => Err(StopView::Needed(path)),
        Some(i) => if ancestors.contains(files[i].canonical) {
            Ok(state)
        } else {
            match files[i].document {
                DocumentView::Unreadable(error) => Err(StopView::Unreadable(error)),
                DocumentView::Readable { sheets, labels } => {
                    proof {
                        lemma_file_at(files, path, 0);
                        lemma_ancestor_is_not_fresh(files, ancestors, i);
                    }
                    match renumber_sheets(
                        files,
                        directory_of(path),
                        sheets,
                        0,
                        prefix,
                        ancestors.push(files[i].canonical),
                        state,
                    ) {
                        Err(stop) => Err(stop),
                        Ok((after, assigned)) => Ok(
                            with_file_edit(
                                after,
                                EditView {
                                    path,
                                    prefix,
                                    changes: page_changes(sheets, assigned, sheets.len()),
                                },
                                gained_uuid,
                            ),
                        ),
                    }
                },
            }
        },
    }
}

/// Number the sheets from position `k` on: each takes the next page, and what is
/// below it comes before the sheet that follows. Gives the page numbers of these
/// sheets as well.
pub open spec fn renumber_sheets(
    files: Seq<FileView>,
    dir: Seq<char>,
    sheets: Seq<SheetView>,
    k: nat,
    prefix: Seq<char>,
    ancestors: Seq<Seq<char>>,
    state: RenumberView,
) -> Result<(RenumberView, Seq<nat>), StopView>
    decreases fresh_files(files, ancestors), 1nat, sheets.len() - k,
{
    if k >= sheets.len() {
        Ok((state, seq![]))
    } else {
        match renumber_sheet(files, dir, sheets[k as int], prefix, ancestors, state) {
            Err(stop) => Err(stop),
            Ok(after) => match renumber_sheets(
                files,
                dir,
                sheets,
                k + 1,
                prefix,
                ancestors,
                after,
            ) {
                Err(stop) => Err(stop),
                Ok((last, rest)) => Ok((last, seq![state.next_page] + rest)),
            },
        }
    }
}

/// Number one sheet and what is below it.
pub open spec fn renumber_sheet(
    files: Seq<FileView>,
    dir: Seq<char>,
    sheet: SheetView,
    prefix: Seq<char>,
    ancestors: Seq<Seq<char>>,
    state: RenumberView,
) -> Result<RenumberView, StopView>
    decreases fresh_files(files, ancestors), 1nat, 0nat,
{
    let child = joined(dir, sheet.file);
    if state.next_page >= u32::MAX {
        Err(StopView::PageLimit)
    } else {
        match file_at(files, child, 0) {
            None => Err(StopView::Needed(child)),
            Some(i) => if files[i].exists {
                renumber_file(
                    files,
                    child,
                    sheet_instance_path(prefix, sheet.uuid),
                    ancestors,
                    false,
                    numbered(state, sheet),
                )
            } else {
                Ok(numbered(state, sheet))
            },
        }
    }
}

pub open spec fn numbers(assigned: Seq<u32>) -> Seq<nat> {
    assigned.map_values(|n: u32| n as nat)
}

fn find_page_changes(sheets: &Vec<Sheet>, assigned: &Vec<u32>) -> (changes: Vec<PageChange>)
    requires
        sheets@.len() == assigned@.len(),
    ensures
        change_views(changes@) == page_changes(
            sheet_views(sheets@),
            numbers(assigned@),
            sheets@.len(),
        ),
{
    let ghost all = sheet_views(sheets@);
    let ghost given = numbers(assigned@);
    let mut changes: Vec<PageChange> = Vec::new();
    let mut k: usize = 0;
    assert(change_views(changes@) =~= page_changes(all, given, 0));
    while k < sheets.len()
        invariant
            k <= sheets@.len() == assigned@.len(),
            all == sheet_views(sheets@),
            given == numbers(assigned@),
            change_views(changes@) == page_changes(all, given, k as nat),
        decreases sheets@.len() - k,
    {
        assert(all[k as int] == sheets@[k as int]@);
        assert(given[k as int] == assigned@[k as int]);
        let page = to_decimal(assigned[k] as u128);
        let has_it = match &sheets[k].page {
            Some(current) => same_text(current.as_str(), page.as_str()),
            None => false,
        };
        if !has_it {
            let ghost before = changes@;
            let change = PageChange { index: k, sheet_uuid: sheets[k].uuid.clone(), page };
            changes.push(change);
            assert(change_views(changes@) =~= change_views(before).push(change@));
        }
        k += 1;
    }
    changes
}

fn walk_renumber(
    files: &Vec<SchematicFile>,
    path: &str,
    prefix: &str,
    ancestors: &mut Vec<String>,
    gained_uuid: bool,
    state: &mut Renumbering,
) -> (result: Result<(), WalkStop>)
    ensures
        match renumber_file(
            file_views(files@),
            path@,
            prefix@,
            texts(old(ancestors)@),
            gained_uuid,
            old(state)@,
        ) {
            Ok(after) => {
                &&& result is Ok
                &&& final(state)@ == after
                &&& texts(final(ancestors)@) == texts(old(ancestors)@)
            },
            Err(stop) => result matches Err(e) && e@ == stop,
        },
    decreases fresh_files(file_views(files@), texts(old(ancestors)@)),
{
    let ghost all = file_views(files@);
    let ghost above = texts(ancestors@);
    let i = match find_file(files, path) {
        Some(i) => i,
        None => {
            return Err(WalkStop::Needed(path.to_owned()));
        },
    };
    if contains_text(ancestors, files[i].canonical.as_str()) {
        return Ok(());
    }
    let document = match &files[i].document {
        Ok(document) => document,
        Err(error) => {
            return Err(WalkStop::Unreadable(error.clone()));
        },
    };
    let dir = parent_dir(path);
    ancestors.push(files[i].canonical.clone());
    let ghost here = texts(ancestors@);
    assert(here =~= above.push(all[i as int].canonical));
    proof {
        lemma_ancestor_is_not_fresh(all, above, i as int);
    }
    let ghost sheets = sheet_views(document.sheets@);
    let ghost whole = renumber_sheets(all, dir@, sheets, 0, prefix@, here, state@);
    let ghost result_view = renumber_file(all, path@, prefix@, above, gained_uuid, state@);
    assert(match whole {
        Err(stop) => result_view == Err::<RenumberView, StopView>(stop),
        Ok((after, assigned)) => result_view == Ok::<RenumberView, StopView>(
            with_file_edit(
                after,
                EditView {
                    path: path@,
                    prefix: prefix@,
                    changes: page_changes(sheets, assigned, sheets.len()),
                },
                gained_uuid,
            ),
        ),
    });
    let mut assigned: Vec<u32> = Vec::new();
    let mut k: usize = 0;
    proof {
        if let Ok((last, rest)) = whole {
            assert(numbers(assigned@) + rest =~= rest);
        }
    }
    while k < document.sheets.len()
        invariant
            k <= document.sheets@.len(),
            assigned@.len() == k,
            sheets == sheet_views(document.sheets@),
            all == file_views(files@),
            above == texts(old(ancestors)@),
            here == texts(ancestors@),
            here == above.push(all[i as int].canonical),
            fresh_files(all, here) < fresh_files(all, above),
            result_view == renumber_file(
                all,
                path@,
                prefix@,
                above,
                gained_uuid,
                old(state)@,
            ),
            match whole {
                Err(stop) => result_view == Err::<RenumberView, StopView>(stop),
                Ok(_) => true,
            },
            match renumber_sheets(all, dir@, sheets, k as nat, prefix@, here, state@) {
                Ok((last, rest)) => whole == Ok::<(RenumberView, Seq<nat>), StopView>(
                    (last, numbers(assigned@) + rest),
                ),
                Err(stop) => whole == Err::<(RenumberView, Seq<nat>), StopView>(stop),
            },
        decreases document.sheets@.len() - k,
    {
        let sheet = &document.sheets[k];
        let ghost view = sheets[k as int];
        assert(view == sheet@);
        let ghost before = state@;
        let ghost given = assigned@;
        if state.next_page == u32::MAX {
            return Err(WalkStop::PageLimit);
        }
        let number = state.next_page;
        state.next_page = number + 1;
        let entry = PageEntry {
            sheet_name: sheet.name.clone(),
            file: sheet.file.clone(),
            page: to_decimal(number as u128),
        };
        let ghost listed = entry@;
        state.pages.push(entry);
        assert(state@.pages =~= before.pages.push(listed));
        assert(state@ == numbered(before, view));
        assigned.push(number);
        assert(numbers(assigned@) =~= numbers(given).push(before.next_page));
        let child = join_path(dir.as_str(), sheet.file.as_str());
        let c = match find_file(files, child.as_str()) {
            Some(c) => c,
            None => {
                return Err(WalkStop::Needed(child));
            },
        };
        if files[c].exists {
            let below = sheet_instance(prefix, sheet.uuid.as_str());
            if let Err(stop) = walk_renumber(
                files,
                child.as_str(),
                below.as_str(),
                ancestors,
                false,
                state,
            ) {
                return Err(stop);
            }
        }
        assert(renumber_sheet(all, dir@, view, prefix@, here, before) == Ok::<
            RenumberView,
            StopView,
        >(state@));
        proof {
            if let Ok((last, rest)) = renumber_sheets(
                all,
                dir@,
                sheets,
                k as nat + 1,
                prefix@,
                here,
                state@,
            ) {
                assert(numbers(given) + (seq![before.next_page] + rest) =~= numbers(assigned@)
                    + rest);
            }
        }
        k += 1;
    }
    assert(numbers(assigned@) + seq![] =~= numbers(assigned@));
    let changes = find_page_changes(&document.sheets, &assigned);
    let ghost after = state@;
    if changes.len() > 0 || (gained_uuid && state.edits.len() > 0) {
        let edit = FileEdit { path: path.to_owned(), prefix: prefix.to_owned(), changes };
        let ghost edit_view = edit@;
        state.edits.push(edit);
        assert(state@.edits =~= after.edits.push(edit_view));
        assert(state@.pages =~= after.pages);
    }
    let ghost pushed = ancestors@;
    assert(pushed.len() == here.len());
    let _ = ancestors.pop();
    assert(ancestors@ == pushed.drop_last());
    assert(texts(ancestors@) =~= here.drop_last());
    assert(here.drop_last() =~= above);
    Ok(())
}

/// The start of the numbering. Page 1 is that of the root, which keeps it.
pub open spec fn first_page() -> RenumberView {
    RenumberView { next_page: 2, pages: seq![], edits: seq![] }
}

/// Give the sheets below the schematic at `path` sequential page numbers from 2
/// on, depth first, and list the files that have to be written for it. Where no
/// page changes, none is. `root_gained_uuid` says that the UUID of the root is new
/// and not written yet.
pub fn collect_renumber_transitions(
    files: &Vec<SchematicFile>,
    path: &str,
    root_uuid: &str,
    root_gained_uuid: bool,
) -> (result: Result<Renumbering, WalkStop>)
    ensures
        match renumber_file(
            file_views(files@),
            path@,
            root_instance_path(root_uuid@),
            seq![],
            root_gained_uuid,
            first_page(),
        ) {
            Ok(after) => result matches Ok(found) && found@ == after,
            Err(stop) => result matches Err(e) && e@ == stop,
        },
{
    let mut ancestors: Vec<String> = Vec::new();
    let mut state = Renumbering { next_page: 2, pages: Vec::new(), edits: Vec::new() };
    assert(texts(ancestors@) =~= seq![]);
    assert(state@ =~= first_page());
    let prefix = root_instance(root_uuid);
    match walk_renumber(
        files,
        path,
        prefix.as_str(),
        &mut ancestors,
        root_gained_uuid,
        &mut state,
    ) {
        Ok(_) => Ok(state),
        Err(stop) => Err(stop),
    }
}

} // verus!
