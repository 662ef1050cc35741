//! What numbering the pages of a tree keeps and leaves behind.

use crate::files::{file_at, lemma_file_at, sheets_of, DocumentView, FileView, StopView};
use crate::model::SheetView;
use crate::new_sheets::sheet_instance_path;
use crate::numeral::{decimal, law_decimal_injective};
use crate::paths::{directory_of, joined};
use crate::renumber::{
    first_page, fresh_files, lemma_ancestor_is_not_fresh, numbered, page_changes, renumber_file,
    renumber_sheet, renumber_sheets, with_file_edit, ChangeView, EditView, PageView, RenumberView,
};
use crate::tree_laws::{is_first_file, is_unlisted, law_first_file_is_found};
use vstd::prelude::*;

verus! {

/// What a numbering adds to one that it goes on from: pages in sequence, and
/// files in which some page changes.
pub open spec fn continues(before: RenumberView, after: RenumberView) -> bool {
    &&& before.pages.len() <= after.pages.len()
    &&& after.next_page - before.next_page == after.pages.len() - before.pages.len()
    &&& forall|j: int| 0 <= j < before.pages.len() ==> after.pages[j] == #[trigger] before.pages[j]
    &&& forall|j: int|
        before.pages.len() <= j < after.pages.len() ==> (#[trigger] after.pages[j]).page
            == decimal((before.next_page + j - before.pages.len()) as nat)
    &&& before.edits.len() <= after.edits.len()
    &&& forall|j: int| 0 <= j < before.edits.len() ==> after.edits[j] == #[trigger] before.edits[j]
    &&& forall|j: int|
        before.edits.len() <= j < after.edits.len() ==> (#[trigger] after.edits[j]).changes.len()
            > 0
}

proof fn lemma_continues_transitive(a: RenumberView, b: RenumberView, c: RenumberView)
    requires
        continues(a, b),
        continues(b, c),
    ensures
        continues(a, c),
{
    assert forall|j: int| 0 <= j < a.pages.len() implies c.pages[j] == #[trigger] a.pages[j] by {
        assert(b.pages[j] == a.pages[j]);
    }
    assert forall|j: int| a.pages.len() <= j < c.pages.len() implies (#[trigger] c.pages[j]).page
        == decimal((a.next_page + j - a.pages.len()) as nat) by {
        if j < b.pages.len() {
            assert(c.pages[j] == b.pages[j]);
        }
    }
    assert forall|j: int| 0 <= j < a.edits.len() implies c.edits[j] == #[trigger] a.edits[j] by {
        assert(b.edits[j] == a.edits[j]);
    }
    assert forall|j: int| a.edits.len() <= j < c.edits.len() implies (
    #[trigger] c.edits[j]).changes.len() > 0 by {
        if j < b.edits.len() {
            assert(c.edits[j] == b.edits[j]);
        }
    }
}

proof fn lemma_file_continues(
    files: Seq<FileView>,
    path: Seq<char>,
    prefix: Seq<char>,
    ancestors: Seq<Seq<char>>,
    state: RenumberView,
)
    ensures
        renumber_file(files, path, prefix, ancestors, false, state) matches Ok(after) ==> continues(
            state,
            after,
        ),
    decreases fresh_files(files, ancestors), 0nat, 0nat,
{
    if let Some(i) = file_at(files, path, 0) {
        if !ancestors.contains(files[i].canonical) {
            if let DocumentView::Readable { sheets, labels } = files[i].document {
                lemma_file_at(files, path, 0);
                lemma_ancestor_is_not_fresh(files, ancestors, i);
                lemma_sheets_continue(
                    files,
                    directory_of(path),
                    sheets,
                    0,
                    prefix,
                    ancestors.push(files[i].canonical),
                    state,
                );
            }
        }
    }
}

proof fn lemma_sheet_continues(
    files: Seq<FileView>,
    dir: Seq<char>,
    sheet: SheetView,
    prefix: Seq<char>,
    ancestors: Seq<Seq<char>>,
    state: RenumberView,
)
    ensures
        renumber_sheet(files, dir, sheet, prefix, ancestors, state) matches Ok(after) ==> {
            &&& continues(state, after)
            &&& after.pages.len() > state.pages.len()
            &&& after.pages[state.pages.len() as int] == (PageView {
                sheet_name: sheet.name,
                file: sheet.file,
                page: decimal(state.next_page),
            })
        },
    decreases fresh_files(files, ancestors), 1nat, 0nat,
{
    let next = numbered(state, sheet);
    assert(continues(state, next));
    let child = joined(dir, sheet.file);
    let below = sheet_instance_path(prefix, sheet.uuid);
    lemma_file_continues(files, child, below, ancestors, next);
    if let Ok(after) = renumber_sheet(files, dir, sheet, prefix, ancestors, state) {
        assert(continues(next, after));
        lemma_continues_transitive(state, next, after);
        assert(after.pages[state.pages.len() as int] == next.pages[state.pages.len() as int]);
    }
}

proof fn lemma_sheets_continue(
    files: Seq<FileView>,
    dir: Seq<char>,
    sheets: Seq<SheetView>,
    k: nat,
    prefix: Seq<char>,
    ancestors: Seq<Seq<char>>,
    state: RenumberView,
)
    ensures
        renumber_sheets(files, dir, sheets, k, prefix, ancestors, state) matches Ok((after, given))
            ==> continues(state, after) && (k <= sheets.len() ==> given.len() == sheets.len() - k),
    decreases fresh_files(files, ancestors), 1nat, sheets.len() - k + 1,
{
    if k < sheets.len() {
        let sheet = sheets[k as int];
        lemma_sheet_continues(files, dir, sheet, prefix, ancestors, state);
        if let Ok(after) = renumber_sheet(files, dir, sheet, prefix, ancestors, state) {
            lemma_sheets_continue(files, dir, sheets, k + 1, prefix, ancestors, after);
            if let Ok((last, rest)) = renumber_sheets(
                files,
                dir,
                sheets,
                k + 1,
                prefix,
                ancestors,
                after,
            ) {
                lemma_continues_transitive(state, after, last);
            }
        }
    }
}

/// The root is numbered as any file is, and then listed as [`with_file_edit`] says.
proof fn lemma_root_continues(
    files: Seq<FileView>,
    path: Seq<char>,
    prefix: Seq<char>,
    gained_uuid: bool,
    state: RenumberView,
) -> (inner: RenumberView)
    requires
        renumber_file(files, path, prefix, seq![], gained_uuid, state) is Ok,
    ensures
        ({
            let after = renumber_file(files, path, prefix, seq![], gained_uuid, state)->Ok_0;
            &&& continues(state, inner)
            &&& after.pages == inner.pages
            &&& after.next_page == inner.next_page
            &&& after.edits == inner.edits || exists|edit: EditView| #[trigger]
                with_file_edit(inner, edit, gained_uuid) == after && after.edits
                    == inner.edits.push(edit) && (edit.changes.len() > 0 || (gained_uuid
                    && inner.edits.len() > 0))
        }),
{
    let none = Seq::<Seq<char>>::empty();
    let i = file_at(files, path, 0)->0;
    lemma_file_at(files, path, 0);
    match files[i].document {
        DocumentView::Readable { sheets, labels } => {
            let inside = none.push(files[i].canonical);
            let dir = directory_of(path);
            lemma_ancestor_is_not_fresh(files, none, i);
            lemma_sheets_continue(files, dir, sheets, 0, prefix, inside, state);
            let (inner, given) = renumber_sheets(
                files,
                dir,
                sheets,
                0,
                prefix,
                inside,
                state,
            )->Ok_0;
            let edit = EditView {
                path,
                prefix,
                changes: page_changes(sheets, given, sheets.len()),
            };
            assert(renumber_file(files, path, prefix, none, gained_uuid, state)->Ok_0
                == with_file_edit(inner, edit, gained_uuid));
            inner
        },
        DocumentView::Unreadable(_) => state,
    }
}

/// The pages run 2, 3, 4 and so on in the order in which the sheets are come upon,
/// and no two sheets get the same. Page 1 is given to none.
pub proof fn law_pages_are_sequential(
    files: Seq<FileView>,
    path: Seq<char>,
    prefix: Seq<char>,
    root_gained_uuid: bool,
)
    requires
        renumber_file(files, path, prefix, seq![], root_gained_uuid, first_page()) is Ok,
    ensures
        ({
            let after = renumber_file(
                files,
                path,
                prefix,
                seq![],
                root_gained_uuid,
                first_page(),
            )->Ok_0;
            let pages = after.pages;
            &&& after.next_page == pages.len() + 2
            &&& forall|i: int|
                0 <= i < pages.len() ==> (#[trigger] pages[i]).page == decimal((i + 2) as nat)
                    && pages[i].page != decimal(1)
            &&& forall|i: int, j: int|
                0 <= i < j < pages.len() ==> (#[trigger] pages[i]).page != (
                #[trigger] pages[j]).page
        }),
{
    let _ = lemma_root_continues(files, path, prefix, root_gained_uuid, first_page());
    let pages = renumber_file(
        files,
        path,
        prefix,
        seq![],
        root_gained_uuid,
        first_page(),
    )->Ok_0.pages;
    assert forall|i: int| 0 <= i < pages.len() implies (#[trigger] pages[i]).page == decimal(
        (i + 2) as nat,
    ) && pages[i].page != decimal(1) by {
        if decimal((i + 2) as nat) == decimal(1) {
            law_decimal_injective((i + 2) as nat, 1);
        }
    }
    assert forall|i: int, j: int| 0 <= i < j < pages.len() implies (#[trigger] pages[i]).page != (
    #[trigger] pages[j]).page by {
        if decimal((i + 2) as nat) == decimal((j + 2) as nat) {
            law_decimal_injective((i + 2) as nat, (j + 2) as nat);
        }
    }
}

/// A file is listed only where one of its pages changes, but for a root that has
/// just gained its UUID and has a page changed below it. Where any file is listed,
/// a page changes.
pub proof fn law_only_changed_files_are_written(
    files: Seq<FileView>,
    path: Seq<char>,
    prefix: Seq<char>,
    root_gained_uuid: bool,
)
    requires
        renumber_file(files, path, prefix, seq![], root_gained_uuid, first_page()) is Ok,
    ensures
        ({
            let edits = renumber_file(
                files,
                path,
                prefix,
                seq![],
                root_gained_uuid,
                first_page(),
            )->Ok_0.edits;
            &&& edits.len() > 0 ==> edits[0].changes.len() > 0
            &&& forall|j: int|
                0 <= j < edits.len() ==> (#[trigger] edits[j]).changes.len() > 0 || (
                root_gained_uuid && 0 < j == edits.len() - 1)
        }),
{
    let inner = lemma_root_continues(files, path, prefix, root_gained_uuid, first_page());
    let edits = renumber_file(
        files,
        path,
        prefix,
        seq![],
        root_gained_uuid,
        first_page(),
    )->Ok_0.edits;
    assert forall|j: int| 0 <= j < edits.len() implies (#[trigger] edits[j]).changes.len() > 0 || (
    root_gained_uuid && 0 < j == edits.len() - 1) by {
        if j < inner.edits.len() {
            assert(edits[j] == inner.edits[j]);
        }
    }
}

/// A sheet comes before what is below it, and what is below it before the sheet
/// that follows: the page of a sheet is the first that it and its descendants
/// take.
pub proof fn law_numbering_is_depth_first(
    files: Seq<FileView>,
    dir: Seq<char>,
    sheet: SheetView,
    prefix: Seq<char>,
    ancestors: Seq<Seq<char>>,
    state: RenumberView,
)
    requires
        renumber_sheet(files, dir, sheet, prefix, ancestors, state) is Ok,
    ensures
        ({
            let after = renumber_sheet(files, dir, sheet, prefix, ancestors, state)->Ok_0;
            &&& continues(state, after)
            &&& after.pages.len() > state.pages.len()
            &&& after.pages[state.pages.len() as int] == (PageView {
                sheet_name: sheet.name,
                file: sheet.file,
                page: decimal(state.next_page),
            })
        }),
{
    lemma_sheet_continues(files, dir, sheet, prefix, ancestors, state);
}

/// The sheets with the changes made: a change is that of the sheet at its place
/// and of its UUID, and changes nothing where the two do not agree.
pub open spec fn with_changes(sheets: Seq<SheetView>, changes: Seq<ChangeView>) -> Seq<SheetView>
    decreases changes.len(),
{
    if changes.len() == 0 {
        sheets
    } else {
        let before = with_changes(sheets, changes.drop_last());
        let k = changes.last().index;
        if before[k].uuid == changes.last().sheet_uuid {
            before.update(k, SheetView { page: Some(changes.last().page), ..before[k] })
        } else {
            before
        }
    }
}

proof fn lemma_with_changes(sheets: Seq<SheetView>, assigned: Seq<nat>, n: nat)
    requires
        n <= sheets.len(),
        n <= assigned.len(),
    ensures
        ({
            let after = with_changes(sheets, page_changes(sheets, assigned, n));
            &&& after.len() == sheets.len()
            &&& forall|k: int|
                0 <= k < n ==> #[trigger] after[k] == (SheetView {
                    page: Some(decimal(assigned[k])),
                    ..sheets[k]
                })
            &&& forall|k: int| n <= k < sheets.len() ==> #[trigger] after[k] == sheets[k]
        }),
    decreases n,
{
    if n > 0 {
        let k = n - 1;
        lemma_with_changes(sheets, assigned, k as nat);
        let before = page_changes(sheets, assigned, k as nat);
        let all = page_changes(sheets, assigned, n);
        if sheets[k].page != Some(decimal(assigned[k])) {
            assert(all.drop_last() =~= before);
        }
    }
}

proof fn lemma_no_changes(sheets: Seq<SheetView>, assigned: Seq<nat>, n: nat)
    requires
        n <= sheets.len(),
        forall|k: int|
            0 <= k < n ==> (#[trigger] sheets[k]).page == Some(decimal(assigned[k])),
    ensures
        page_changes(sheets, assigned, n).len() == 0,
    decreases n,
{
    if n > 0 {
        lemma_no_changes(sheets, assigned, (n - 1) as nat);
    }
}

/// The changes give every sheet of a file the page it is to have, touch nothing
/// else, and leave nothing to change a second time.
pub proof fn law_changes_settle_the_pages(sheets: Seq<SheetView>, assigned: Seq<nat>)
    requires
        assigned.len() == sheets.len(),
    ensures
        ({
            let after = with_changes(sheets, page_changes(sheets, assigned, sheets.len()));
            &&& after.len() == sheets.len()
            &&& forall|k: int|
                0 <= k < sheets.len() ==> #[trigger] after[k] == (SheetView {
                    page: Some(decimal(assigned[k])),
                    ..sheets[k]
                })
            &&& page_changes(after, assigned, after.len()).len() == 0
        }),
{
    lemma_with_changes(sheets, assigned, sheets.len());
    let after = with_changes(sheets, page_changes(sheets, assigned, sheets.len()));
    lemma_no_changes(after, assigned, after.len());
}

/// The sheets are the same but for their pages.
pub open spec fn same_sheets_but_pages(a: Seq<SheetView>, b: Seq<SheetView>) -> bool {
    a.len() == b.len() && forall|k: int|
        0 <= k < a.len() ==> (#[trigger] a[k]).name == b[k].name && a[k].file == b[k].file
            && a[k].uuid == b[k].uuid
}

/// The files are the same but for the pages of their sheets.
pub open spec fn same_files_but_pages(a: Seq<FileView>, b: Seq<FileView>) -> bool {
    a.len() == b.len() && forall|i: int|
        #![trigger a[i]]
        #![trigger b[i]]
        0 <= i < a.len() ==> a[i].path == b[i].path && a[i].canonical == b[i].canonical
            && a[i].exists == b[i].exists && match (a[i].document, b[i].document) {
            (
                DocumentView::Readable { sheets: s, labels: _ },
                DocumentView::Readable { sheets: t, labels: _ },
            ) => same_sheets_but_pages(s, t),
            (DocumentView::Unreadable(e), DocumentView::Unreadable(f)) => e == f,
            _ => false,
        }
}

/// Two numberings have come equally far and given the same pages.
pub open spec fn same_pages(
    a: Result<RenumberView, StopView>,
    b: Result<RenumberView, StopView>,
) -> bool {
    match (a, b) {
        (Ok(x), Ok(y)) => x.next_page == y.next_page && x.pages == y.pages,
        (Err(x), Err(y)) => x == y,
        _ => false,
    }
}

proof fn lemma_same_file_at(
    a: Seq<FileView>,
    b: Seq<FileView>,
    path: Seq<char>,
    from: int,
)
    requires
        same_files_but_pages(a, b),
        0 <= from,
    ensures
        file_at(a, path, from) == file_at(b, path, from),
    decreases a.len() - from,
{
    if from < a.len() {
        assert(a[from].path == b[from].path);
        lemma_same_file_at(a, b, path, from + 1);
    }
}

proof fn lemma_same_file(
    a: Seq<FileView>,
    b: Seq<FileView>,
    path: Seq<char>,
    prefix: Seq<char>,
    ancestors: Seq<Seq<char>>,
    write_a: bool,
    write_b: bool,
    s: RenumberView,
    t: RenumberView,
)
    requires
        same_files_but_pages(a, b),
        s.next_page == t.next_page,
        s.pages == t.pages,
    ensures
        same_pages(
            renumber_file(a, path, prefix, ancestors, write_a, s),
            renumber_file(b, path, prefix, ancestors, write_b, t),
        ),
    decreases fresh_files(a, ancestors), 0nat, 0nat,
{
    lemma_same_file_at(a, b, path, 0);
    lemma_file_at(a, path, 0);
    if let Some(i) = file_at(a, path, 0) {
        assert(a[i].canonical == b[i].canonical);
        if !ancestors.contains(a[i].canonical) {
            if let DocumentView::Readable { sheets, labels } = a[i].document {
                lemma_ancestor_is_not_fresh(a, ancestors, i);
                let others = match b[i].document {
                    DocumentView::Readable { sheets, labels } => sheets,
                    DocumentView::Unreadable(_) => seq![],
                };
                lemma_same_sheets(
                    a,
                    b,
                    directory_of(path),
                    sheets,
                    others,
                    0,
                    prefix,
                    ancestors.push(a[i].canonical),
                    s,
                    t,
                );
            }
        }
    }
}

proof fn lemma_same_sheets(
    a: Seq<FileView>,
    b: Seq<FileView>,
    dir: Seq<char>,
    sheets: Seq<SheetView>,
    others: Seq<SheetView>,
    k: nat,
    prefix: Seq<char>,
    ancestors: Seq<Seq<char>>,
    s: RenumberView,
    t: RenumberView,
)
    requires
        same_files_but_pages(a, b),
        same_sheets_but_pages(sheets, others),
        s.next_page == t.next_page,
        s.pages == t.pages,
    ensures
        match (
            renumber_sheets(a, dir, sheets, k, prefix, ancestors, s),
            renumber_sheets(b, dir, others, k, prefix, ancestors, t),
        ) {
            (Ok((x, _)), Ok((y, _))) => x.next_page == y.next_page && x.pages == y.pages,
            (Err(x), Err(y)) => x == y,
            _ => false,
        },
    decreases fresh_files(a, ancestors), 1nat, sheets.len() - k + 1,
{
    if k < sheets.len() {
        let sheet = sheets[k as int];
        let other = others[k as int];
        assert(sheet.file == other.file);
        let child = joined(dir, sheet.file);
        lemma_same_file_at(a, b, child, 0);
        lemma_file_at(a, child, 0);
        if let Some(i) = file_at(a, child, 0) {
            assert(a[i].exists == b[i].exists);
        }
        assert(numbered(s, sheet).pages =~= numbered(t, other).pages);
        lemma_same_file(
            a,
            b,
            child,
            sheet_instance_path(prefix, sheet.uuid),
            ancestors,
            false,
            false,
            numbered(s, sheet),
            numbered(t, other),
        );
        let x = renumber_sheet(a, dir, sheet, prefix, ancestors, s);
        let y = renumber_sheet(b, dir, other, prefix, ancestors, t);
        assert(same_pages(x, y));
        if x is Ok {
            lemma_same_sheets(
                a,
                b,
                dir,
                sheets,
                others,
                k + 1,
                prefix,
                ancestors,
                x->Ok_0,
                y->Ok_0,
            );
        }
    }
}

/// The pages that are given do not rest on the pages that the sheets have: a
/// numbering made again once the files were written gives the same.
pub proof fn law_second_numbering_gives_the_same_pages(
    files: Seq<FileView>,
    written: Seq<FileView>,
    path: Seq<char>,
    prefix: Seq<char>,
    root_gained_uuid: bool,
)
    requires
        same_files_but_pages(files, written),
    ensures
        same_pages(
            renumber_file(files, path, prefix, seq![], root_gained_uuid, first_page()),
            renumber_file(written, path, prefix, seq![], false, first_page()),
        ),
{
    lemma_same_file(
        files,
        written,
        path,
        prefix,
        seq![],
        root_gained_uuid,
        false,
        first_page(),
        first_page(),
    );
}

/// A file that the numbering comes upon: its place in the list, the path and the
/// instance path under which it is come upon, and the numbers that its sheets are
/// given.
#[verifier::ext_equal]
pub struct VisitView {
    pub file: int,
    pub path: Seq<char>,
    pub prefix: Seq<char>,
    pub assigned: Seq<nat>,
}

/// The files that are come upon in numbering a file and what is below it, each
/// after those below it.
pub open spec fn file_visits(
    files: Seq<FileView>,
    path: Seq<char>,
    prefix: Seq<char>,
    ancestors: Seq<Seq<char>>,
    state: RenumberView,
) -> Seq<VisitView>
    decreases fresh_files(files, ancestors), 0nat, 0nat,
{
    match file_at(files, path, 0) {
        None => seq![],
        Some(i) => if ancestors.contains(files[i].canonical) {
            seq![]
        } else {
            match files[i].document {
                DocumentView::Unreadable(_) => seq![],
                DocumentView::Readable { sheets, labels } => {
                    proof {
                        lemma_file_at(files, path, 0);
                        lemma_ancestor_is_not_fresh(files, ancestors, i);
                    }
                    let dir = directory_of(path);
                    let inside = ancestors.push(files[i].canonical);
                    match renumber_sheets(files, dir, sheets, 0, prefix, inside, state) {
                        Err(_) => seq![],
                        Ok((after, assigned)) => sheets_visits(
                            files,
                            dir,
                            sheets,
                            0,
                            prefix,
                            inside,
                            state,
                        ).push(VisitView { file: i, path, prefix, assigned }),
                    }
                },
            }
        },
    }
}

/// The files that are come upon below the sheets from position `k` on.
pub open spec fn sheets_visits(
    files: Seq<FileView>,
    dir: Seq<char>,
    sheets: Seq<SheetView>,
    k: nat,
    prefix: Seq<char>,
    ancestors: Seq<Seq<char>>,
    state: RenumberView,
) -> Seq<VisitView>
    decreases fresh_files(files, ancestors), 1nat, sheets.len() - k,
{
    if k >= sheets.len() {
        seq![]
    } else {
        match renumber_sheet(files, dir, sheets[k as int], prefix, ancestors, state) {
            Err(_) => seq![],
            Ok(after) => sheet_visits(files, dir, sheets[k as int], prefix, ancestors, state)
                + sheets_visits(files, dir, sheets, k + 1, prefix, ancestors, after),
        }
    }
}

/// The files that are come upon below one sheet.
pub open spec fn sheet_visits(
    files: Seq<FileView>,
    dir: Seq<char>,
    sheet: SheetView,
    prefix: Seq<char>,
    ancestors: Seq<Seq<char>>,
    state: RenumberView,
) -> Seq<VisitView>
    decreases fresh_files(files, ancestors), 1nat, 0nat,
{
    let child = joined(dir, sheet.file);
    match file_at(files, child, 0) {
        None => seq![],
        Some(i) => if files[i].exists {
            file_visits(
                files,
                child,
                sheet_instance_path(prefix, sheet.uuid),
                ancestors,
                numbered(state, sheet),
            )
        } else {
            seq![]
        },
    }
}

/// The changes of pages in a file that is come upon.
pub open spec fn visit_changes(files: Seq<FileView>, visit: VisitView) -> Seq<ChangeView> {
    let sheets = sheets_of(files[visit.file]);
    page_changes(sheets, visit.assigned, sheets.len())
}

/// The files that are come upon and have a page changed, in order.
pub open spec fn visit_edits(files: Seq<FileView>, visits: Seq<VisitView>) -> Seq<EditView>
    decreases visits.len(),
{
    if visits.len() == 0 {
        seq![]
    } else {
        let before = visit_edits(files, visits.drop_last());
        let visit = visits.last();
        if visit_changes(files, visit).len() > 0 {
            before.push(
                EditView {
                    path: visit.path,
                    prefix: visit.prefix,
                    changes: visit_changes(files, visit),
                },
            )
        } else {
            before
        }
    }
}

/// How many sheets the files that are come upon have together.
pub open spec fn sheets_met(visits: Seq<VisitView>) -> nat
    decreases visits.len(),
{
    if visits.len() == 0 {
        0
    } else {
        sheets_met(visits.drop_last()) + visits.last().assigned.len()
    }
}

proof fn lemma_visits_append(files: Seq<FileView>, a: Seq<VisitView>, b: Seq<VisitView>)
    ensures
        visit_edits(files, a + b) == visit_edits(files, a) + visit_edits(files, b),
        sheets_met(a + b) == sheets_met(a) + sheets_met(b),
    decreases b.len(),
{
    if b.len() == 0 {
        assert(a + b =~= a);
        assert(visit_edits(files, a) + visit_edits(files, b) =~= visit_edits(files, a));
    } else {
        lemma_visits_append(files, a, b.drop_last());
        assert((a + b).drop_last() =~= a + b.drop_last());
        assert((a + b).last() == b.last());
        assert(visit_edits(files, a + b) =~= visit_edits(files, a) + visit_edits(files, b));
    }
}

/// The visit is of a listed file that can be read, and has a number for each of
/// its sheets.
pub open spec fn is_visit(files: Seq<FileView>, visit: VisitView) -> bool {
    &&& 0 <= visit.file < files.len()
    &&& file_at(files, visit.path, 0) == Some(visit.file)
    &&& files[visit.file].document is Readable
    &&& visit.assigned.len() == sheets_of(files[visit.file]).len()
}

/// The report of a sheet that was given that number.
pub open spec fn page_entry(sheet: SheetView, number: nat) -> PageView {
    PageView { sheet_name: sheet.name, file: sheet.file, page: decimal(number) }
}

/// Each sheet of the visit is reported at the place of its number.
pub open spec fn is_reported(
    files: Seq<FileView>,
    after: RenumberView,
    visit: VisitView,
) -> bool {
    forall|k: int|
        0 <= k < visit.assigned.len() ==> 2 <= #[trigger] visit.assigned[k] < after.next_page
            && after.pages[visit.assigned[k] - 2] == page_entry(
            sheets_of(files[visit.file])[k],
            visit.assigned[k],
        )
}

/// The visits that a numbering makes from `before` to `after`: they are visits,
/// they account for the files it lists, and for the pages it gives.
spec fn accounts_for(
    files: Seq<FileView>,
    before: RenumberView,
    after: RenumberView,
    visits: Seq<VisitView>,
) -> bool {
    &&& after.edits == before.edits + visit_edits(files, visits)
    &&& forall|m: int|
        0 <= m < visits.len() ==> is_visit(files, #[trigger] visits[m]) && is_reported(
            files,
            after,
            visits[m],
        )
}

/// As many pages have been given as the next page number says.
spec fn in_order(state: RenumberView) -> bool {
    state.next_page == state.pages.len() + 2
}

proof fn lemma_report_is_kept(
    files: Seq<FileView>,
    before: RenumberView,
    after: RenumberView,
    visit: VisitView,
)
    requires
        in_order(before),
        continues(before, after),
        is_reported(files, before, visit),
    ensures
        is_reported(files, after, visit),
{
    assert forall|k: int| 0 <= k < visit.assigned.len() implies 2
        <= #[trigger] visit.assigned[k] < after.next_page && after.pages[visit.assigned[k] - 2]
        == page_entry(sheets_of(files[visit.file])[k], visit.assigned[k]) by {
        assert(after.pages[visit.assigned[k] - 2] == before.pages[visit.assigned[k] - 2]);
    }
}

proof fn lemma_file_accounts(
    files: Seq<FileView>,
    path: Seq<char>,
    prefix: Seq<char>,
    ancestors: Seq<Seq<char>>,
    state: RenumberView,
)
    requires
        in_order(state),
    ensures
        renumber_file(files, path, prefix, ancestors, false, state) matches Ok(after) ==> {
            let visits = file_visits(files, path, prefix, ancestors, state);
            accounts_for(files, state, after, visits) && after.pages.len() == state.pages.len()
                + sheets_met(visits)
        },
    decreases fresh_files(files, ancestors), 0nat, 1nat,
{
    assert(state.edits + Seq::<EditView>::empty() =~= state.edits);
    if let Some(i) = file_at(files, path, 0) {
        if !ancestors.contains(files[i].canonical) {
            if let DocumentView::Readable { sheets, labels } = files[i].document {
                lemma_file_at(files, path, 0);
                lemma_ancestor_is_not_fresh(files, ancestors, i);
                lemma_visited_file(files, path, prefix, ancestors, i, false, state);
            }
        }
    }
}

proof fn lemma_visited_file(
    files: Seq<FileView>,
    path: Seq<char>,
    prefix: Seq<char>,
    ancestors: Seq<Seq<char>>,
    i: int,
    gained_uuid: bool,
    state: RenumberView,
)
    requires
        in_order(state),
        file_at(files, path, 0) == Some(i),
        0 <= i < files.len(),
        !ancestors.contains(files[i].canonical),
        files[i].document is Readable,
        fresh_files(files, ancestors.push(files[i].canonical)) < fresh_files(files, ancestors),
    ensures
        renumber_file(files, path, prefix, ancestors, gained_uuid, state) matches Ok(after) ==> {
            let visits = file_visits(files, path, prefix, ancestors, state);
            &&& forall|m: int|
                0 <= m < visits.len() ==> is_visit(files, #[trigger] visits[m]) && is_reported(
                    files,
                    after,
                    visits[m],
                )
            &&& after.pages.len() == state.pages.len() + sheets_met(visits)
            &&& after.next_page == after.pages.len() + 2
            &&& !gained_uuid ==> after.edits == state.edits + visit_edits(files, visits)
            &&& gained_uuid && state.edits.len() == 0 && visit_edits(files, visits).len() == 0
                ==> after.edits == state.edits
            &&& after.edits == state.edits + visit_edits(files, visits) || after.edits == (
            state.edits + visit_edits(files, visits)).push(
                EditView { path, prefix, changes: Seq::<ChangeView>::empty() },
            )
        },
    decreases fresh_files(files, ancestors), 0nat, 0nat,
{
    let sheets = sheets_of(files[i]);
    let dir = directory_of(path);
    let inside = ancestors.push(files[i].canonical);
    lemma_sheets_account(files, dir, sheets, 0, prefix, inside, state);
    lemma_sheets_continue(files, dir, sheets, 0, prefix, inside, state);
    if let Ok((inner, given)) = renumber_sheets(files, dir, sheets, 0, prefix, inside, state) {
        let below = sheets_visits(files, dir, sheets, 0, prefix, inside, state);
        let visit = VisitView { file: i, path, prefix, assigned: given };
        let visits = below.push(visit);
        assert(file_visits(files, path, prefix, ancestors, state) == visits);
        assert(visits.drop_last() =~= below);
        assert(visits.last() == visit);
        let edit = EditView { path, prefix, changes: page_changes(sheets, given, sheets.len()) };
        let after = with_file_edit(inner, edit, gained_uuid);
        assert(renumber_file(files, path, prefix, ancestors, gained_uuid, state) == Ok::<
            RenumberView,
            StopView,
        >(after));
        assert(edit.changes == visit_changes(files, visit));
        if edit.changes.len() == 0 {
            assert(edit.changes =~= Seq::<ChangeView>::empty());
        }
        assert(state.edits + visit_edits(files, below).push(edit) =~= (state.edits + visit_edits(
            files,
            below,
        )).push(edit));
        assert forall|m: int| 0 <= m < visits.len() implies is_visit(files, #[trigger] visits[m])
            && is_reported(files, after, visits[m]) by {
            if m < below.len() {
                assert(visits[m] == below[m]);
                assert(is_reported(files, inner, below[m]));
            }
            assert forall|k: int| 0 <= k < visits[m].assigned.len() implies 2
                <= #[trigger] visits[m].assigned[k] < after.next_page
                && after.pages[visits[m].assigned[k] - 2] == page_entry(
                sheets_of(files[visits[m].file])[k],
                visits[m].assigned[k],
            ) by {
                if m < below.len() {
                    assert(2 <= below[m].assigned[k] < inner.next_page);
                } else {
                    assert(2 <= given[k] < inner.next_page);
                }
            }
        }
    }
}

proof fn lemma_sheet_accounts(
    files: Seq<FileView>,
    dir: Seq<char>,
    sheet: SheetView,
    prefix: Seq<char>,
    ancestors: Seq<Seq<char>>,
    state: RenumberView,
)
    requires
        in_order(state),
    ensures
        renumber_sheet(files, dir, sheet, prefix, ancestors, state) matches Ok(after) ==> {
            let visits = sheet_visits(files, dir, sheet, prefix, ancestors, state);
            accounts_for(files, state, after, visits) && after.pages.len() == state.pages.len() + 1
                + sheets_met(visits)
        },
    decreases fresh_files(files, ancestors), 1nat, 0nat,
{
    let child = joined(dir, sheet.file);
    let next = numbered(state, sheet);
    assert(state.edits + Seq::<EditView>::empty() =~= state.edits);
    lemma_file_accounts(
        files,
        child,
        sheet_instance_path(prefix, sheet.uuid),
        ancestors,
        next,
    );
}

proof fn lemma_sheets_account(
    files: Seq<FileView>,
    dir: Seq<char>,
    sheets: Seq<SheetView>,
    k: nat,
    prefix: Seq<char>,
    ancestors: Seq<Seq<char>>,
    state: RenumberView,
)
    requires
        in_order(state),
        k <= sheets.len(),
    ensures
        renumber_sheets(files, dir, sheets, k, prefix, ancestors, state) matches Ok((after, given))
            ==> {
            let visits = sheets_visits(files, dir, sheets, k, prefix, ancestors, state);
            &&& accounts_for(files, state, after, visits)
            &&& given.len() == sheets.len() - k
            &&& after.pages.len() == state.pages.len() + given.len() + sheets_met(visits)
            &&& forall|j: int|
                0 <= j < given.len() ==> 2 <= #[trigger] given[j] < after.next_page
                    && after.pages[given[j] - 2] == page_entry(sheets[k + j], given[j])
        },
    decreases fresh_files(files, ancestors), 1nat, sheets.len() - k + 1,
{
    if k >= sheets.len() {
        assert(state.edits + Seq::<EditView>::empty() =~= state.edits);
    } else {
        let sheet = sheets[k as int];
        lemma_sheet_accounts(files, dir, sheet, prefix, ancestors, state);
        lemma_sheet_continues(files, dir, sheet, prefix, ancestors, state);
        if let Ok(after) = renumber_sheet(files, dir, sheet, prefix, ancestors, state) {
            lemma_sheets_account(files, dir, sheets, k + 1, prefix, ancestors, after);
            lemma_sheets_continue(files, dir, sheets, k + 1, prefix, ancestors, after);
            if let Ok((last, rest)) = renumber_sheets(
                files,
                dir,
                sheets,
                k + 1,
                prefix,
                ancestors,
                after,
            ) {
                let first_visits = sheet_visits(files, dir, sheet, prefix, ancestors, state);
                let more = sheets_visits(files, dir, sheets, k + 1, prefix, ancestors, after);
                let visits = first_visits + more;
                let given = seq![state.next_page] + rest;
                assert(sheets_visits(files, dir, sheets, k, prefix, ancestors, state) == visits);
                lemma_visits_append(files, first_visits, more);
                assert(last.edits =~= state.edits + visit_edits(files, visits));
                assert forall|m: int| 0 <= m < visits.len() implies is_visit(
                    files,
                    #[trigger] visits[m],
                ) && is_reported(files, last, visits[m]) by {
                    if m < first_visits.len() {
                        assert(visits[m] == first_visits[m]);
                        lemma_report_is_kept(files, after, last, first_visits[m]);
                    } else {
                        assert(visits[m] == more[m - first_visits.len()]);
                    }
                }
                assert forall|j: int| 0 <= j < given.len() implies 2
                    <= #[trigger] given[j] < last.next_page && last.pages[given[j] - 2]
                    == page_entry(sheets[k + j], given[j]) by {
                    if j == 0 {
                        let at = state.pages.len() as int;
                        assert(after.pages[at] == page_entry(sheet, state.next_page));
                        assert(last.pages[at] == after.pages[at]);
                    } else {
                        assert(given[j] == rest[j - 1]);
                        assert(sheets[k + 1 + (j - 1)] == sheets[k + j]);
                    }
                }
            }
        }
    }
}

/// Files that are listed more than once are listed alike.
pub open spec fn is_consistent(files: Seq<FileView>) -> bool {
    forall|i: int, j: int|
        0 <= i < files.len() && 0 <= j < files.len() && (#[trigger] files[i]).canonical == (
        #[trigger] files[j]).canonical ==> files[i].document == files[j].document
}

/// No file is come upon twice.
pub open spec fn each_file_once(files: Seq<FileView>, visits: Seq<VisitView>) -> bool {
    forall|m: int, n: int|
        0 <= m < n < visits.len() ==> files[(#[trigger] visits[m]).file].canonical != files[(
        #[trigger] visits[n]).file].canonical
}

/// The sheets of a file once the edits of that file have been made.
pub open spec fn sheets_after(
    files: Seq<FileView>,
    edits: Seq<EditView>,
    canonical: Seq<char>,
    sheets: Seq<SheetView>,
) -> Seq<SheetView>
    decreases edits.len(),
{
    if edits.len() == 0 {
        sheets
    } else {
        let before = sheets_after(files, edits.drop_last(), canonical, sheets);
        match file_at(files, edits.last().path, 0) {
            Some(i) => if files[i].canonical == canonical {
                with_changes(before, edits.last().changes)
            } else {
                before
            },
            None => before,
        }
    }
}

/// A file once the edits have been made.
pub open spec fn file_after(
    files: Seq<FileView>,
    edits: Seq<EditView>,
    file: FileView,
) -> FileView {
    match file.document {
        DocumentView::Readable { sheets, labels } => FileView {
            document: DocumentView::Readable {
                sheets: sheets_after(files, edits, file.canonical, sheets),
                labels,
            },
            ..file
        },
        DocumentView::Unreadable(_) => file,
    }
}

/// The files once the edits have been made.
pub open spec fn with_edits(files: Seq<FileView>, edits: Seq<EditView>) -> Seq<FileView> {
    files.map_values(|file: FileView| file_after(files, edits, file))
}

proof fn lemma_sheets_after(
    files: Seq<FileView>,
    visits: Seq<VisitView>,
    canonical: Seq<char>,
    sheets: Seq<SheetView>,
)
    requires
        each_file_once(files, visits),
        forall|m: int| 0 <= m < visits.len() ==> is_visit(files, #[trigger] visits[m]),
    ensures
        (forall|m: int|
            0 <= m < visits.len() ==> files[(#[trigger] visits[m]).file].canonical != canonical)
            ==> sheets_after(files, visit_edits(files, visits), canonical, sheets) == sheets,
        forall|m: int|
            0 <= m < visits.len() && files[(#[trigger] visits[m]).file].canonical == canonical
                ==> sheets_after(files, visit_edits(files, visits), canonical, sheets)
                == with_changes(sheets, visit_changes(files, visits[m])),
    decreases visits.len(),
{
    if visits.len() > 0 {
        let shorter = visits.drop_last();
        let last = visits.last();
        assert(visits[visits.len() - 1] == last);
        assert forall|m: int| 0 <= m < shorter.len() implies is_visit(
            files,
            #[trigger] shorter[m],
        ) by {
            assert(visits[m] == shorter[m]);
        }
        assert forall|m: int, n: int| 0 <= m < n < shorter.len() implies files[(
        #[trigger] shorter[m]).file].canonical != files[(#[trigger] shorter[n]).file].canonical by {
            assert(visits[m] == shorter[m] && visits[n] == shorter[n]);
        }
        lemma_sheets_after(files, shorter, canonical, sheets);
        let before = visit_edits(files, shorter);
        let all = visit_edits(files, visits);
        let old_sheets = sheets_after(files, before, canonical, sheets);
        if visit_changes(files, last).len() > 0 {
            assert(all.drop_last() =~= before);
            assert(file_at(files, all.last().path, 0) == Some(last.file));
        }
        assert(sheets_after(files, all, canonical, sheets) == if files[last.file].canonical
            == canonical {
            with_changes(old_sheets, visit_changes(files, last))
        } else {
            old_sheets
        });
        if files[last.file].canonical == canonical {
            assert forall|m: int| 0 <= m < shorter.len() implies files[(
            #[trigger] shorter[m]).file].canonical != canonical by {
                assert(visits[m] == shorter[m]);
            }
        }
        assert forall|m: int|
            0 <= m < visits.len() && files[(#[trigger] visits[m]).file].canonical
                == canonical implies sheets_after(files, all, canonical, sheets) == with_changes(
            sheets,
            visit_changes(files, visits[m]),
        ) by {
            if m < shorter.len() {
                assert(visits[m] == shorter[m]);
            }
        }
        if forall|m: int|
            0 <= m < visits.len() ==> files[(#[trigger] visits[m]).file].canonical != canonical {
            assert forall|m: int| 0 <= m < shorter.len() implies files[(
            #[trigger] shorter[m]).file].canonical != canonical by {
                assert(visits[m] == shorter[m]);
            }
        }
    }
}

/// The sheets that are come upon have the pages that they are given.
spec fn is_settled(written: Seq<FileView>, visits: Seq<VisitView>) -> bool {
    forall|m: int, k: int|
        #![trigger visits[m].assigned[k]]
        0 <= m < visits.len() && 0 <= k < visits[m].assigned.len() ==> sheets_of(
            written[visits[m].file],
        )[k].page == Some(decimal(visits[m].assigned[k]))
}

proof fn lemma_written_files(
    files: Seq<FileView>,
    visits: Seq<VisitView>,
)
    requires
        is_consistent(files),
        each_file_once(files, visits),
        forall|m: int| 0 <= m < visits.len() ==> is_visit(files, #[trigger] visits[m]),
    ensures
        ({
            let written = with_edits(files, visit_edits(files, visits));
            &&& same_files_but_pages(files, written)
            &&& is_settled(written, visits)
            &&& forall|m: int, k: int|
                #![trigger visits[m].assigned[k]]
                0 <= m < visits.len() && 0 <= k < visits[m].assigned.len() ==> sheets_of(
                    written[visits[m].file],
                )[k] == (SheetView {
                    page: Some(decimal(visits[m].assigned[k])),
                    ..sheets_of(files[visits[m].file])[k]
                })
            &&& forall|i: int|
                0 <= i < files.len() && (forall|m: int|
                    0 <= m < visits.len() ==> files[(#[trigger] visits[m]).file].canonical
                        != files[i].canonical) ==> #[trigger] written[i] == files[i]
        }),
{
    let edits = visit_edits(files, visits);
    let written = with_edits(files, edits);
    assert forall|m: int| 0 <= m < visits.len() implies sheets_of(
        written[(#[trigger] visits[m]).file],
    ) == with_changes(sheets_of(files[visits[m].file]), visit_changes(files, visits[m])) by {
        let file = files[visits[m].file];
        lemma_sheets_after(files, visits, file.canonical, sheets_of(file));
    }
    assert forall|m: int, k: int|
        #![trigger visits[m].assigned[k]]
        0 <= m < visits.len() && 0 <= k < visits[m].assigned.len() implies sheets_of(
        written[visits[m].file],
    )[k] == (SheetView {
        page: Some(decimal(visits[m].assigned[k])),
        ..sheets_of(files[visits[m].file])[k]
    }) by {
        assert(is_visit(files, visits[m]));
        let sheets = sheets_of(files[visits[m].file]);
        lemma_with_changes(sheets, visits[m].assigned, sheets.len());
    }
    assert forall|i: int| 0 <= i < files.len() && (forall|m: int|
        0 <= m < visits.len() ==> files[(#[trigger] visits[m]).file].canonical
            != files[i].canonical) implies #[trigger] written[i] == files[i] by {
        lemma_sheets_after(files, visits, files[i].canonical, sheets_of(files[i]));
    }
    assert forall|i: int|
        #![trigger files[i]]
        #![trigger written[i]]
        0 <= i < files.len() implies files[i].path == written[i].path && files[i].canonical
        == written[i].canonical && files[i].exists == written[i].exists && match (
        files[i].document,
        written[i].document,
    ) {
        (
            DocumentView::Readable { sheets: s, labels: _ },
            DocumentView::Readable { sheets: t, labels: _ },
        ) => same_sheets_but_pages(s, t),
        (DocumentView::Unreadable(e), DocumentView::Unreadable(f)) => e == f,
        _ => false,
    } by {
        assert(written[i] == file_after(files, edits, files[i]));
        if let DocumentView::Readable { sheets, labels } = files[i].document {
            let canonical = files[i].canonical;
            lemma_sheets_after(files, visits, canonical, sheets);
            if exists|m: int|
                0 <= m < visits.len() && files[(#[trigger] visits[m]).file].canonical
                    == canonical {
                let m = choose|m: int|
                    0 <= m < visits.len() && files[(#[trigger] visits[m]).file].canonical
                        == canonical;
                assert(is_visit(files, visits[m]));
                assert(files[visits[m].file].document == files[i].document);
                lemma_with_changes(sheets, visits[m].assigned, sheets.len());
                let after = with_changes(sheets, page_changes(
                    sheets,
                    visits[m].assigned,
                    sheets.len(),
                ));
                assert forall|k: int| 0 <= k < sheets.len() implies (#[trigger] sheets[k]).name
                    == after[k].name && sheets[k].file == after[k].file && sheets[k].uuid
                    == after[k].uuid by {
                    assert(after[k] == (SheetView {
                        page: Some(decimal(visits[m].assigned[k])),
                        ..sheets[k]
                    }));
                }
            }
        }
    }
}

proof fn lemma_settled_parts(written: Seq<FileView>, a: Seq<VisitView>, b: Seq<VisitView>)
    requires
        is_settled(written, a + b),
    ensures
        is_settled(written, a),
        is_settled(written, b),
{
    let all = a + b;
    assert forall|m: int, k: int|
        #![trigger a[m].assigned[k]]
        0 <= m < a.len() && 0 <= k < a[m].assigned.len() implies sheets_of(
        written[a[m].file],
    )[k].page == Some(decimal(a[m].assigned[k])) by {
        assert(all[m] == a[m]);
        assert(all[m].assigned[k] == a[m].assigned[k]);
    }
    assert forall|m: int, k: int|
        #![trigger b[m].assigned[k]]
        0 <= m < b.len() && 0 <= k < b[m].assigned.len() implies sheets_of(
        written[b[m].file],
    )[k].page == Some(decimal(b[m].assigned[k])) by {
        assert(all[a.len() + m] == b[m]);
        assert(all[a.len() + m].assigned[k] == b[m].assigned[k]);
    }
}

/// The second numbering gives the same pages and lists nothing.
spec fn repeats(
    first: RenumberView,
    before: RenumberView,
    second: Result<RenumberView, StopView>,
) -> bool {
    second matches Ok(after) && after.next_page == first.next_page && after.pages == first.pages
        && after.edits == before.edits
}

proof fn lemma_settled_file(
    a: Seq<FileView>,
    b: Seq<FileView>,
    path: Seq<char>,
    prefix: Seq<char>,
    ancestors: Seq<Seq<char>>,
    gained_a: bool,
    gained_b: bool,
    s: RenumberView,
    t: RenumberView,
)
    requires
        same_files_but_pages(a, b),
        s.next_page == t.next_page,
        s.pages == t.pages,
        gained_b ==> t.edits.len() == 0,
        renumber_file(a, path, prefix, ancestors, gained_a, s) is Ok,
        is_settled(b, file_visits(a, path, prefix, ancestors, s)),
    ensures
        repeats(
            renumber_file(a, path, prefix, ancestors, gained_a, s)->Ok_0,
            t,
            renumber_file(b, path, prefix, ancestors, gained_b, t),
        ),
    decreases fresh_files(a, ancestors), 0nat, 0nat,
{
    lemma_same_file_at(a, b, path, 0);
    lemma_file_at(a, path, 0);
    let i = file_at(a, path, 0)->0;
    assert(a[i].canonical == b[i].canonical);
    if !ancestors.contains(a[i].canonical) {
        let sheets = sheets_of(a[i]);
        let others = sheets_of(b[i]);
        let dir = directory_of(path);
        let inside = ancestors.push(a[i].canonical);
        lemma_ancestor_is_not_fresh(a, ancestors, i);
        let (inner, given) = renumber_sheets(a, dir, sheets, 0, prefix, inside, s)->Ok_0;
        let below = sheets_visits(a, dir, sheets, 0, prefix, inside, s);
        let visit = VisitView { file: i, path, prefix, assigned: given };
        let visits = file_visits(a, path, prefix, ancestors, s);
        assert(visits == below.push(visit));
        assert(visits =~= below + seq![visit]);
        lemma_settled_parts(b, below, seq![visit]);
        lemma_sheets_continue(a, dir, sheets, 0, prefix, inside, s);
        lemma_settled_sheets(a, b, dir, sheets, others, 0, prefix, inside, s, t);
        assert forall|k: int| 0 <= k < others.len() implies (#[trigger] others[k]).page == Some(
            decimal(given[k]),
        ) by {
            assert(seq![visit][0].assigned[k] == given[k]);
        }
        lemma_no_changes(others, given, others.len());
    }
}

proof fn lemma_settled_sheets(
    a: Seq<FileView>,
    b: Seq<FileView>,
    dir: Seq<char>,
    sheets: Seq<SheetView>,
    others: Seq<SheetView>,
    k: nat,
    prefix: Seq<char>,
    ancestors: Seq<Seq<char>>,
    s: RenumberView,
    t: RenumberView,
)
    requires
        same_files_but_pages(a, b),
        same_sheets_but_pages(sheets, others),
        s.next_page == t.next_page,
        s.pages == t.pages,
        renumber_sheets(a, dir, sheets, k, prefix, ancestors, s) is Ok,
        is_settled(b, sheets_visits(a, dir, sheets, k, prefix, ancestors, s)),
    ensures
        ({
            let (first, given) = renumber_sheets(a, dir, sheets, k, prefix, ancestors, s)->Ok_0;
            renumber_sheets(b, dir, others, k, prefix, ancestors, t) matches Ok((after, again))
                && again == given && after.next_page == first.next_page && after.pages
                == first.pages && after.edits == t.edits
        }),
    decreases fresh_files(a, ancestors), 1nat, sheets.len() - k + 1,
{
    if k < sheets.len() {
        let sheet = sheets[k as int];
        let other = others[k as int];
        assert(sheet.file == other.file);
        let child = joined(dir, sheet.file);
        let below = sheet_instance_path(prefix, sheet.uuid);
        let x = renumber_sheet(a, dir, sheet, prefix, ancestors, s)->Ok_0;
        lemma_settled_parts(
            b,
            sheet_visits(a, dir, sheet, prefix, ancestors, s),
            sheets_visits(a, dir, sheets, k + 1, prefix, ancestors, x),
        );
        lemma_same_file_at(a, b, child, 0);
        lemma_file_at(a, child, 0);
        let i = file_at(a, child, 0)->0;
        assert(a[i].exists == b[i].exists);
        assert(numbered(s, sheet).pages =~= numbered(t, other).pages);
        if a[i].exists {
            lemma_settled_file(
                a,
                b,
                child,
                below,
                ancestors,
                false,
                false,
                numbered(s, sheet),
                numbered(t, other),
            );
        }
        let y = renumber_sheet(b, dir, other, prefix, ancestors, t);
        assert(repeats(x, t, y));
        lemma_settled_sheets(
            a,
            b,
            dir,
            sheets,
            others,
            k + 1,
            prefix,
            ancestors,
            x,
            y->Ok_0,
        );
    }
}

proof fn lemma_empty_edit_changes_nothing(files: Seq<FileView>, edits: Seq<EditView>, edit: EditView)
    requires
        edit.changes.len() == 0,
    ensures
        with_edits(files, edits.push(edit)) == with_edits(files, edits),
{
    assert(edits.push(edit).drop_last() =~= edits);
    assert forall|i: int| 0 <= i < files.len() implies #[trigger] with_edits(
        files,
        edits.push(edit),
    )[i] == with_edits(files, edits)[i] by {
        assert(file_after(files, edits.push(edit), files[i]) == file_after(
            files,
            edits,
            files[i],
        ));
    }
    assert(with_edits(files, edits.push(edit)) =~= with_edits(files, edits));
}

/// Where each file is come upon once, writing what is listed gives every sheet of
/// the tree the page that is reported for it, the pages running 2, 3, 4 and so on
/// in the order of the report. Nothing else of a sheet changes, and no file that
/// is not in the tree does. Numbering the tree again then gives the same pages and
/// lists no file.
pub proof fn law_written_tree_is_settled(
    files: Seq<FileView>,
    path: Seq<char>,
    prefix: Seq<char>,
    root_gained_uuid: bool,
    gained_again: bool,
)
    requires
        is_consistent(files),
        renumber_file(files, path, prefix, seq![], root_gained_uuid, first_page()) is Ok,
        each_file_once(files, file_visits(files, path, prefix, seq![], first_page())),
    ensures
        ({
            let after = renumber_file(
                files,
                path,
                prefix,
                seq![],
                root_gained_uuid,
                first_page(),
            )->Ok_0;
            let visits = file_visits(files, path, prefix, seq![], first_page());
            let written = with_edits(files, after.edits);
            let second = renumber_file(written, path, prefix, seq![], gained_again, first_page());
            &&& after.pages.len() == sheets_met(visits)
            &&& forall|m: int| 0 <= m < visits.len() ==> is_visit(files, #[trigger] visits[m])
            &&& forall|m: int, k: int|
                #![trigger visits[m].assigned[k]]
                0 <= m < visits.len() && 0 <= k < visits[m].assigned.len() ==> {
                    let number = visits[m].assigned[k];
                    let sheet = sheets_of(files[visits[m].file])[k];
                    &&& 2 <= number < after.pages.len() + 2
                    &&& after.pages[number - 2] == page_entry(sheet, number)
                    &&& sheets_of(written[visits[m].file])[k] == (SheetView {
                        page: Some(decimal(number)),
                        ..sheet
                    })
                }
            &&& forall|i: int|
                0 <= i < files.len() && (forall|m: int|
                    0 <= m < visits.len() ==> files[(#[trigger] visits[m]).file].canonical
                        != files[i].canonical) ==> #[trigger] written[i] == files[i]
            &&& second is Ok
            &&& second->Ok_0.pages == after.pages
            &&& second->Ok_0.edits == Seq::<EditView>::empty()
        }),
{
    let none = Seq::<Seq<char>>::empty();
    let start = first_page();
    let i = file_at(files, path, 0)->0;
    lemma_file_at(files, path, 0);
    lemma_ancestor_is_not_fresh(files, none, i);
    lemma_visited_file(files, path, prefix, none, i, root_gained_uuid, start);
    let after = renumber_file(files, path, prefix, none, root_gained_uuid, start)->Ok_0;
    let visits = file_visits(files, path, prefix, none, start);
    let edits = visit_edits(files, visits);
    assert(start.edits + edits =~= edits);
    let empty_edit = EditView { path, prefix, changes: Seq::<ChangeView>::empty() };
    lemma_empty_edit_changes_nothing(files, edits, empty_edit);
    let written = with_edits(files, after.edits);
    assert(written == with_edits(files, edits));
    lemma_written_files(files, visits);
    lemma_settled_file(
        files,
        written,
        path,
        prefix,
        none,
        root_gained_uuid,
        gained_again,
        start,
        start,
    );
    assert forall|m: int, k: int|
        #![trigger visits[m].assigned[k]]
        0 <= m < visits.len() && 0 <= k < visits[m].assigned.len() implies {
        let number = visits[m].assigned[k];
        let sheet = sheets_of(files[visits[m].file])[k];
        &&& 2 <= number < after.pages.len() + 2
        &&& after.pages[number - 2] == page_entry(sheet, number)
        &&& sheets_of(written[visits[m].file])[k] == (SheetView {
            page: Some(decimal(number)),
            ..sheet
        })
    } by {
        assert(is_reported(files, after, visits[m]));
    }
}

/// Where every sheet that is come upon has its page already, no file is listed.
pub proof fn law_settled_tree_is_left_alone(
    files: Seq<FileView>,
    path: Seq<char>,
    prefix: Seq<char>,
    root_gained_uuid: bool,
)
    requires
        renumber_file(files, path, prefix, seq![], root_gained_uuid, first_page()) is Ok,
        ({
            let visits = file_visits(files, path, prefix, seq![], first_page());
            forall|m: int, k: int|
                #![trigger visits[m].assigned[k]]
                0 <= m < visits.len() && 0 <= k < visits[m].assigned.len() ==> sheets_of(
                    files[visits[m].file],
                )[k].page == Some(decimal(visits[m].assigned[k]))
        }),
    ensures
        renumber_file(
            files,
            path,
            prefix,
            seq![],
            root_gained_uuid,
            first_page(),
        )->Ok_0.edits == Seq::<EditView>::empty(),
{
    lemma_settled_file(
        files,
        files,
        path,
        prefix,
        seq![],
        root_gained_uuid,
        root_gained_uuid,
        first_page(),
        first_page(),
    );
}

/// Each change is one of a sheet among the first `n`: it has the place and the
/// UUID of that sheet, and the numeral of the page the sheet is to have, which it
/// does not have yet. The changes are in the order of the sheets, one for each
/// sheet that does not have its page.
pub proof fn law_each_change_names_its_sheet(
    sheets: Seq<SheetView>,
    assigned: Seq<nat>,
    n: nat,
)
    requires
        n <= sheets.len(),
        n <= assigned.len(),
    ensures
        ({
            let changes = page_changes(sheets, assigned, n);
            &&& forall|m: int|
                0 <= m < changes.len() ==> {
                    let change = #[trigger] changes[m];
                    &&& 0 <= change.index < n
                    &&& change.sheet_uuid == sheets[change.index].uuid
                    &&& change.page == decimal(assigned[change.index])
                    &&& sheets[change.index].page != Some(change.page)
                }
            &&& forall|l: int, m: int|
                0 <= l < m < changes.len() ==> (#[trigger] changes[l]).index < (
                #[trigger] changes[m]).index
            &&& forall|k: int|
                0 <= k < n && (#[trigger] sheets[k]).page != Some(decimal(assigned[k]))
                    ==> exists|m: int| 0 <= m < changes.len() && (#[trigger] changes[m]).index == k
        }),
    decreases n,
{
    if n > 0 {
        let last = n - 1;
        let before = page_changes(sheets, assigned, last as nat);
        let changes = page_changes(sheets, assigned, n);
        law_each_change_names_its_sheet(sheets, assigned, last as nat);
        assert(forall|m: int| 0 <= m < before.len() ==> changes[m] == #[trigger] before[m]);
        assert forall|m: int| 0 <= m < changes.len() implies {
            let change = #[trigger] changes[m];
            &&& 0 <= change.index < n
            &&& change.sheet_uuid == sheets[change.index].uuid
            &&& change.page == decimal(assigned[change.index])
            &&& sheets[change.index].page != Some(change.page)
        } by {
            if m < before.len() {
                assert(changes[m] == before[m]);
            }
        }
        assert forall|l: int, m: int| 0 <= l < m < changes.len() implies (
        #[trigger] changes[l]).index < (#[trigger] changes[m]).index by {
            assert(changes[l] == before[l]);
            if m < before.len() {
                assert(changes[m] == before[m]);
            }
        }
        assert forall|k: int|
            0 <= k < n && (#[trigger] sheets[k]).page != Some(decimal(assigned[k])) implies exists|
            m: int,
        | 0 <= m < changes.len() && (#[trigger] changes[m]).index == k by {
            if k < last {
                let m = choose|m: int|
                    0 <= m < before.len() && (#[trigger] before[m]).index == k;
                assert(changes[m].index == k);
            } else {
                assert(changes[changes.len() - 1].index == k);
            }
        }
    }
}

/// Where the sheets have UUIDs that differ from each other, the UUID of a sheet
/// tells its change: a sheet that some change names is to have the page of that
/// change, and one that none names has its page already.
pub proof fn law_uuid_tells_the_change(sheets: Seq<SheetView>, assigned: Seq<nat>, k: int)
    requires
        assigned.len() == sheets.len(),
        forall|a: int, b: int|
            0 <= a < b < sheets.len() ==> (#[trigger] sheets[a]).uuid != (#[trigger] sheets[b]).uuid,
        0 <= k < sheets.len(),
    ensures
        ({
            let changes = page_changes(sheets, assigned, sheets.len());
            &&& forall|m: int|
                0 <= m < changes.len() && (#[trigger] changes[m]).sheet_uuid == sheets[k].uuid
                    ==> changes[m].page == decimal(assigned[k])
            &&& (forall|m: int|
                0 <= m < changes.len() ==> (#[trigger] changes[m]).sheet_uuid != sheets[k].uuid)
                <==> sheets[k].page == Some(decimal(assigned[k]))
        }),
{
    let changes = page_changes(sheets, assigned, sheets.len());
    law_each_change_names_its_sheet(sheets, assigned, sheets.len());
    assert forall|m: int|
        0 <= m < changes.len() && (#[trigger] changes[m]).sheet_uuid
            == sheets[k].uuid implies changes[m].index == k by {
        let j = changes[m].index;
        assert(sheets[j].uuid == sheets[k].uuid);
    }
    if sheets[k].page != Some(decimal(assigned[k])) {
        let m = choose|m: int| 0 <= m < changes.len() && (#[trigger] changes[m]).index == k;
        assert(changes[m].sheet_uuid == sheets[k].uuid);
    }
}

/// The numbering begins at page 2, with nothing given and nothing to write.
pub proof fn law_numbering_begins_at_two()
    ensures
        first_page().next_page == 2,
        first_page().pages.len() == 0,
        first_page().edits.len() == 0,
{
}

/// A sheet takes the next page: it is reported with its name, its file and that
/// page, and the page after is the next. What is below its child is numbered after
/// it, under the instance path of its schematic with its own UUID added. A child
/// that is not on disk has nothing below it.
pub proof fn law_sheet_takes_the_next_page(
    files: Seq<FileView>,
    dir: Seq<char>,
    sheet: SheetView,
    prefix: Seq<char>,
    ancestors: Seq<Seq<char>>,
    state: RenumberView,
    i: int,
)
    ensures
        ({
            let child = joined(dir, sheet.file);
            let result = renumber_sheet(files, dir, sheet, prefix, ancestors, state);
            let taken = RenumberView {
                next_page: state.next_page + 1,
                pages: state.pages.push(
                    PageView {
                        sheet_name: sheet.name,
                        file: sheet.file,
                        page: decimal(state.next_page),
                    },
                ),
                edits: state.edits,
            };
            &&& state.next_page >= u32::MAX ==> result == Err::<RenumberView, StopView>(
                StopView::PageLimit,
            )
            &&& state.next_page < u32::MAX && is_unlisted(files, child) ==> result == Err::<
                RenumberView,
                StopView,
            >(StopView::Needed(child))
            &&& state.next_page < u32::MAX && is_first_file(files, child, i) ==> result == (
            if files[i].exists {
                renumber_file(files, child, prefix + "/"@ + sheet.uuid, ancestors, false, taken)
            } else {
                Ok::<RenumberView, StopView>(taken)
            })
        }),
{
    law_first_file_is_found(files, joined(dir, sheet.file), i);
}

/// The sheets of a file are numbered in turn: the first takes the next page, and
/// the others go on from where what is below it ends. The numbers come in the
/// order of the sheets, one for each.
pub proof fn law_sheets_are_numbered_in_turn(
    files: Seq<FileView>,
    dir: Seq<char>,
    sheets: Seq<SheetView>,
    k: nat,
    prefix: Seq<char>,
    ancestors: Seq<Seq<char>>,
    state: RenumberView,
)
    requires
        k <= sheets.len(),
        renumber_sheets(files, dir, sheets, k, prefix, ancestors, state) is Ok,
    ensures
        ({
            let (after, assigned) = renumber_sheets(
                files,
                dir,
                sheets,
                k,
                prefix,
                ancestors,
                state,
            )->Ok_0;
            &&& assigned.len() == sheets.len() - k
            &&& k == sheets.len() ==> after == state
            &&& k < sheets.len() ==> {
                let first = renumber_sheet(
                    files,
                    dir,
                    sheets[k as int],
                    prefix,
                    ancestors,
                    state,
                );
                &&& first is Ok
                &&& assigned[0] == state.next_page
                &&& renumber_sheets(files, dir, sheets, k + 1, prefix, ancestors, first->Ok_0)
                    == Ok::<(RenumberView, Seq<nat>), StopView>((after, assigned.skip(1)))
            }
        }),
{
    lemma_sheets_continue(files, dir, sheets, k, prefix, ancestors, state);
    if k < sheets.len() {
        let first = renumber_sheet(files, dir, sheets[k as int], prefix, ancestors, state)->Ok_0;
        let (last, rest) = renumber_sheets(
            files,
            dir,
            sheets,
            k + 1,
            prefix,
            ancestors,
            first,
        )->Ok_0;
        assert((seq![state.next_page] + rest).skip(1) =~= rest);
    }
}

/// A file that can be read and is not its own ancestor has its sheets numbered, in
/// its own directory. It is written, after what is below it, where one of its
/// pages changes, and, if it has just gained its UUID, where any page below it
/// does: under its path and its instance path, with the changes of its sheets. A
/// file that is its own ancestor is passed over, one that cannot be read stops the
/// numbering, and one that is not listed is asked for.
pub proof fn law_file_is_numbered_by_its_sheets(
    files: Seq<FileView>,
    path: Seq<char>,
    prefix: Seq<char>,
    ancestors: Seq<Seq<char>>,
    gained_uuid: bool,
    state: RenumberView,
    i: int,
)
    ensures
        ({
            let result = renumber_file(files, path, prefix, ancestors, gained_uuid, state);
            &&& is_unlisted(files, path) ==> result == Err::<RenumberView, StopView>(
                StopView::Needed(path),
            )
            &&& is_first_file(files, path, i) ==> if ancestors.contains(files[i].canonical) {
                result == Ok::<RenumberView, StopView>(state)
            } else {
                match files[i].document {
                    DocumentView::Unreadable(error) => result == Err::<RenumberView, StopView>(
                        StopView::Unreadable(error),
                    ),
                    DocumentView::Readable { sheets, labels } => match renumber_sheets(
                        files,
                        directory_of(path),
                        sheets,
                        0,
                        prefix,
                        ancestors.push(files[i].canonical),
                        state,
                    ) {
                        Err(stop) => result == Err::<RenumberView, StopView>(stop),
                        Ok((below, assigned)) => {
                            let changes = page_changes(sheets, assigned, sheets.len());
                            let written = (exists|k: int|
                                0 <= k < sheets.len() && (#[trigger] sheets[k]).page != Some(
                                    decimal(assigned[k]),
                                )) || (gained_uuid && below.edits.len() > 0);
                            &&& result is Ok
                            &&& result->Ok_0.next_page == below.next_page
                            &&& result->Ok_0.pages == below.pages
                            &&& !written ==> result->Ok_0.edits == below.edits
                            &&& written ==> result->Ok_0.edits.len() == below.edits.len() + 1
                                && result->Ok_0.edits.drop_last() == below.edits
                                && result->Ok_0.edits.last().path == path
                                && result->Ok_0.edits.last().prefix == prefix
                                && result->Ok_0.edits.last().changes == changes
                        },
                    },
                }
            }
        }),
{
    law_first_file_is_found(files, path, i);
    if is_first_file(files, path, i) && !ancestors.contains(files[i].canonical) {
        if let DocumentView::Readable { sheets, labels } = files[i].document {
            let dir = directory_of(path);
            let inside = ancestors.push(files[i].canonical);
            if let Ok((below, assigned)) = renumber_sheets(
                files,
                dir,
                sheets,
                0,
                prefix,
                inside,
                state,
            ) {
                lemma_sheets_continue(files, dir, sheets, 0, prefix, inside, state);
                law_each_change_names_its_sheet(sheets, assigned, sheets.len());
                let changes = page_changes(sheets, assigned, sheets.len());
                if changes.len() > 0 {
                    let k = changes[0].index;
                    assert(sheets[k].page != Some(decimal(assigned[k])));
                }
                let edit = EditView { path, prefix, changes };
                assert(below.edits.push(edit).drop_last() =~= below.edits);
            }
        }
    }
}

/// A change of an edit is one of a sheet of the file at the path of the edit: it
/// has the place and the UUID of that sheet, and a page that the sheet does not
/// have.
pub open spec fn is_change_of(files: Seq<FileView>, path: Seq<char>, change: ChangeView) -> bool {
    exists|i: int|
        {
            &&& #[trigger] is_first_file(files, path, i)
            &&& 0 <= change.index < sheets_of(files[i]).len()
            &&& change.sheet_uuid == sheets_of(files[i])[change.index].uuid
            &&& sheets_of(files[i])[change.index].page != Some(change.page)
        }
}

proof fn lemma_visit_edits(files: Seq<FileView>, visits: Seq<VisitView>, e: int, m: int)
    requires
        forall|v: int| 0 <= v < visits.len() ==> is_visit(files, #[trigger] visits[v]),
        0 <= e < visit_edits(files, visits).len(),
        0 <= m < visit_edits(files, visits)[e].changes.len(),
    ensures
        is_change_of(
            files,
            visit_edits(files, visits)[e].path,
            visit_edits(files, visits)[e].changes[m],
        ),
    decreases visits.len(),
{
    let shorter = visits.drop_last();
    let before = visit_edits(files, shorter);
    if e < before.len() {
        assert(visit_edits(files, visits)[e] == before[e]);
        assert forall|v: int| 0 <= v < shorter.len() implies is_visit(
            files,
            #[trigger] shorter[v],
        ) by {
            assert(visits[v] == shorter[v]);
        }
        lemma_visit_edits(files, shorter, e, m);
    } else {
        let visit = visits.last();
        assert(is_visit(files, visits[visits.len() - 1]));
        let sheets = sheets_of(files[visit.file]);
        law_first_file_is_found(files, visit.path, visit.file);
        law_each_change_names_its_sheet(sheets, visit.assigned, sheets.len());
        assert(visit_edits(files, visits)[e].changes == visit_changes(files, visit));
        assert(is_first_file(files, visit.path, visit.file));
    }
}

/// Every change in every file that renumbering lists names, by place and by UUID,
/// a sheet of that file whose page it changes.
pub proof fn law_every_listed_change_names_a_sheet(
    files: Seq<FileView>,
    path: Seq<char>,
    prefix: Seq<char>,
    root_gained_uuid: bool,
    e: int,
    m: int,
)
    requires
        renumber_file(files, path, prefix, seq![], root_gained_uuid, first_page()) is Ok,
        ({
            let edits = renumber_file(
                files,
                path,
                prefix,
                seq![],
                root_gained_uuid,
                first_page(),
            )->Ok_0.edits;
            0 <= e < edits.len() && 0 <= m < edits[e].changes.len()
        }),
    ensures
        ({
            let edits = renumber_file(
                files,
                path,
                prefix,
                seq![],
                root_gained_uuid,
                first_page(),
            )->Ok_0.edits;
            is_change_of(files, edits[e].path, edits[e].changes[m])
        }),
{
    let none = Seq::<Seq<char>>::empty();
    let start = first_page();
    let i = file_at(files, path, 0)->0;
    lemma_file_at(files, path, 0);
    lemma_ancestor_is_not_fresh(files, none, i);
    lemma_visited_file(files, path, prefix, none, i, root_gained_uuid, start);
    let visits = file_visits(files, path, prefix, none, start);
    assert(start.edits + visit_edits(files, visits) =~= visit_edits(files, visits));
    lemma_visit_edits(files, visits, e, m);
}

} // verus!
