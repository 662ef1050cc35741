//! What the tree of sheets and the report on it hold of each file and each sheet
//! that they come from.

use crate::files::{file_at, DocumentView, FileView, StopView, MAX_HIERARCHY_DEPTH};
use crate::hierarchy::{
    law_each_sheet_has_its_node, node, nodes, subtree, NodeView, SubtreeView,
};
use crate::import_laws::{has_label, has_pin};
use crate::model::{label_names, pin_names, LabelView, SheetView};
use crate::paths::{directory_of, joined};
use crate::sheets::summary_of;
use crate::validation::{
    issues_below, law_no_name_is_reported_twice, law_reported_names_are_the_unmatched, mismatch,
    names_without, sheet_issues, sheets_issues, IssueView,
};
use vstd::prelude::*;

verus! {

/// The file at `i` is the first that is listed under the path.
pub open spec fn is_first_file(files: Seq<FileView>, path: Seq<char>, i: int) -> bool {
    &&& 0 <= i < files.len()
    &&& files[i].path == path
    &&& forall|j: int| 0 <= j < i ==> (#[trigger] files[j]).path != path
}

/// No file is listed under the path.
pub open spec fn is_unlisted(files: Seq<FileView>, path: Seq<char>) -> bool {
    forall|j: int| 0 <= j < files.len() ==> (#[trigger] files[j]).path != path
}

proof fn lemma_first_file(files: Seq<FileView>, path: Seq<char>, from: int)
    requires
        0 <= from,
    ensures
        match file_at(files, path, from) {
            Some(i) => from <= i < files.len() && files[i].path == path && forall|j: int|
                from <= j < i ==> (#[trigger] files[j]).path != path,
            None => forall|j: int| from <= j < files.len() ==> (#[trigger] files[j]).path != path,
        },
    decreases files.len() - from,
{
    if from < files.len() && files[from].path != path {
        lemma_first_file(files, path, from + 1);
    }
}

/// The file that is found under a path is the first that is listed under it.
pub proof fn law_first_file_is_found(files: Seq<FileView>, path: Seq<char>, i: int)
    ensures
        file_at(files, path, 0) == Some(i) <==> is_first_file(files, path, i),
        file_at(files, path, 0) is None <==> is_unlisted(files, path),
{
    lemma_first_file(files, path, 0);
    if is_first_file(files, path, i) {
        match file_at(files, path, 0) {
            Some(j) => {
                if j < i {
                    assert(files[j].path != path);
                }
                if i < j {
                    assert(files[i].path != path);
                }
            },
            None => {
                assert(files[i].path != path);
            },
        }
    }
}

/// A walk looks into the root and twenty levels of sheets below it.
pub proof fn law_walk_looks_twenty_levels_down()
    ensures
        MAX_HIERARCHY_DEPTH == 20,
{
}

/// The tree of a file has one node for each of its sheets, in order, and no
/// error, where the file can be read and is not its own ancestor: each node is
/// that of its sheet one level down, in the directory of the file, with the file
/// among the ancestors.
pub proof fn law_tree_of_a_file_holds_each_sheet(
    files: Seq<FileView>,
    path: Seq<char>,
    levels: nat,
    ancestors: Seq<Seq<char>>,
    i: int,
    sheets: Seq<SheetView>,
    labels: Seq<LabelView>,
)
    requires
        levels > 0,
        is_first_file(files, path, i),
        !ancestors.contains(files[i].canonical),
        files[i].document == (DocumentView::Readable { sheets, labels }),
    ensures
        subtree(files, path, levels, ancestors) is Ok <==> forall|k: int|
            0 <= k < sheets.len() ==> node(
                files,
                directory_of(path),
                #[trigger] sheets[k],
                (levels - 1) as nat,
                ancestors.push(files[i].canonical),
            ) is Ok,
        subtree(files, path, levels, ancestors) matches Ok(tree) ==> {
            &&& tree.error is None
            &&& tree.children.len() == sheets.len()
            &&& forall|k: int|
                0 <= k < sheets.len() ==> (#[trigger] tree.children[k]).sheet == summary_of(
                    sheets[k],
                ) && node(
                    files,
                    directory_of(path),
                    sheets[k],
                    (levels - 1) as nat,
                    ancestors.push(files[i].canonical),
                ) == Ok::<NodeView, Seq<char>>(tree.children[k])
        },
{
    law_first_file_is_found(files, path, i);
    let dir = directory_of(path);
    let below = (levels - 1) as nat;
    let here = ancestors.push(files[i].canonical);
    lemma_nodes_are_ok(files, dir, sheets, 0, below, here);
    let list = nodes(files, dir, sheets, 0, below, here);
    if list is Ok {
        law_each_sheet_has_its_node(files, dir, sheets, 0, below, here);
        assert(subtree(files, path, levels, ancestors) == Ok::<SubtreeView, Seq<char>>(
            SubtreeView { children: list->Ok_0, error: None },
        ));
        assert forall|k: int| 0 <= k < sheets.len() implies (
        #[trigger] list->Ok_0[k]).sheet == summary_of(sheets[k]) && node(
            files,
            dir,
            sheets[k],
            below,
            here,
        ) == Ok::<NodeView, Seq<char>>(list->Ok_0[k]) by {
            assert(sheets[0 + k] == sheets[k]);
        }
    } else {
        assert(subtree(files, path, levels, ancestors) is Err);
    }
}

proof fn lemma_nodes_are_ok(
    files: Seq<FileView>,
    dir: Seq<char>,
    sheets: Seq<SheetView>,
    k: nat,
    levels: nat,
    ancestors: Seq<Seq<char>>,
)
    ensures
        nodes(files, dir, sheets, k, levels, ancestors) is Ok <==> forall|j: int|
            k <= j < sheets.len() ==> node(files, dir, #[trigger] sheets[j], levels, ancestors)
                is Ok,
    decreases sheets.len() - k,
{
    if k < sheets.len() {
        lemma_nodes_are_ok(files, dir, sheets, k + 1, levels, ancestors);
        let first = node(files, dir, sheets[k as int], levels, ancestors);
        if first is Ok {
            assert(nodes(files, dir, sheets, k, levels, ancestors) is Ok <==> nodes(
                files,
                dir,
                sheets,
                k + 1,
                levels,
                ancestors,
            ) is Ok);
        } else {
            assert(nodes(files, dir, sheets, k, levels, ancestors) is Err);
        }
    }
}

/// A file that is not looked into has no nodes, and its error says why: the tree
/// is too deep, the file is its own ancestor, or it could not be loaded. A file
/// that is not listed is asked for.
pub proof fn law_closed_file_says_why(
    files: Seq<FileView>,
    path: Seq<char>,
    levels: nat,
    ancestors: Seq<Seq<char>>,
    i: int,
)
    ensures
        ({
            let tree = subtree(files, path, levels, ancestors);
            &&& levels == 0 ==> tree is Ok && tree->Ok_0.children.len() == 0 && tree->Ok_0.error
                == Some("max hierarchy depth exceeded — possible reference cycle"@)
            &&& levels > 0 && is_unlisted(files, path) ==> tree == Err::<
                SubtreeView,
                Seq<char>,
            >(path)
            &&& levels > 0 && is_first_file(files, path, i) ==> {
                &&& ancestors.contains(files[i].canonical) ==> tree is Ok
                    && tree->Ok_0.children.len() == 0 && tree->Ok_0.error == Some(
                    "cycle detected — this file is already an ancestor in this tree"@,
                )
                &&& !ancestors.contains(files[i].canonical) && files[i].document is Unreadable
                    ==> tree is Ok && tree->Ok_0.children.len() == 0 && tree->Ok_0.error == Some(
                    "failed to load: "@ + files[i].document->Unreadable_0,
                )
            }
        }),
{
    law_first_file_is_found(files, path, i);
}

/// The node of a sheet describes the sheet. Where its child is on disk, it holds
/// all that is below the child, and the child's error; where it is not, it says
/// so and holds nothing. A child that is not listed is asked for.
pub proof fn law_node_holds_what_is_below(
    files: Seq<FileView>,
    dir: Seq<char>,
    sheet: SheetView,
    levels: nat,
    ancestors: Seq<Seq<char>>,
    i: int,
)
    ensures
        ({
            let child = joined(dir, sheet.file);
            let found = node(files, dir, sheet, levels, ancestors);
            let below = subtree(files, child, levels, ancestors);
            &&& is_unlisted(files, child) ==> found == Err::<NodeView, Seq<char>>(child)
            &&& is_first_file(files, child, i) && !files[i].exists ==> {
                &&& found is Ok
                &&& found->Ok_0.sheet == summary_of(sheet)
                &&& found->Ok_0.children.len() == 0
                &&& found->Ok_0.error == Some("child file not found on disk"@)
            }
            &&& is_first_file(files, child, i) && files[i].exists ==> {
                &&& found is Ok <==> below is Ok
                &&& found is Err ==> found->Err_0 == below->Err_0
                &&& found is Ok ==> found->Ok_0.sheet == summary_of(sheet)
                    && found->Ok_0.children == below->Ok_0.children && found->Ok_0.error
                    == below->Ok_0.error
            }
        }),
{
    law_first_file_is_found(files, joined(dir, sheet.file), i);
}

/// The node of a sheet whose child is on disk, can be read and is no ancestor has
/// one node below it for each sheet of the child, in order, with its description.
pub proof fn law_node_has_every_sheet_of_its_child(
    files: Seq<FileView>,
    dir: Seq<char>,
    sheet: SheetView,
    levels: nat,
    ancestors: Seq<Seq<char>>,
    i: int,
    sheets: Seq<SheetView>,
    labels: Seq<LabelView>,
)
    requires
        levels > 0,
        node(files, dir, sheet, levels, ancestors) is Ok,
        is_first_file(files, joined(dir, sheet.file), i),
        files[i].exists,
        !ancestors.contains(files[i].canonical),
        files[i].document == (DocumentView::Readable { sheets, labels }),
    ensures
        ({
            let found = node(files, dir, sheet, levels, ancestors)->Ok_0;
            &&& found.error is None
            &&& found.children.len() == sheets.len()
            &&& forall|k: int|
                0 <= k < sheets.len() ==> (#[trigger] found.children[k]).sheet == summary_of(
                    sheets[k],
                ) && node(
                    files,
                    directory_of(joined(dir, sheet.file)),
                    sheets[k],
                    (levels - 1) as nat,
                    ancestors.push(files[i].canonical),
                ) == Ok::<NodeView, Seq<char>>(found.children[k])
        }),
{
    let child = joined(dir, sheet.file);
    law_node_holds_what_is_below(files, dir, sheet, levels, ancestors, i);
    law_tree_of_a_file_holds_each_sheet(files, child, levels, ancestors, i, sheets, labels);
}

proof fn lemma_names(sheet: SheetView, labels: Seq<LabelView>, name: Seq<char>)
    ensures
        label_names(labels).contains(name) <==> has_label(labels, name),
        pin_names(sheet.pins).contains(name) <==> has_pin(sheet.pins, name),
{
    let label_list = label_names(labels);
    let pin_list = pin_names(sheet.pins);
    if label_list.contains(name) {
        let k = choose|k: int| 0 <= k < label_list.len() && label_list[k] == name;
        assert(labels[k].text == name);
    }
    if has_label(labels, name) {
        let k = choose|k: int| 0 <= k < labels.len() && (#[trigger] labels[k]).text == name;
        assert(label_list[k] == name);
    }
    if pin_list.contains(name) {
        let k = choose|k: int| 0 <= k < pin_list.len() && pin_list[k] == name;
        assert(sheet.pins[k].name == name);
    }
    if has_pin(sheet.pins, name) {
        let k = choose|k: int| 0 <= k < sheet.pins.len() && (#[trigger] sheet.pins[k]).name == name;
        assert(pin_list[k] == name);
    }
}

/// One more name is listed last where the others do not have it and it is not
/// listed yet, and changes nothing otherwise; without names none is listed.
pub proof fn law_each_name_is_judged_in_turn(
    names: Seq<Seq<char>>,
    others: Seq<Seq<char>>,
    name: Seq<char>,
)
    ensures
        names_without(seq![], others).len() == 0,
        names_without(names.push(name), others) == (if others.contains(name) || names.contains(
            name,
        ) {
            names_without(names, others)
        } else {
            names_without(names, others).push(name)
        }),
{
    assert(names.push(name).drop_last() =~= names);
    law_reported_names_are_the_unmatched(names, others, name);
}

/// A sheet that is out of step with its child has one issue. It has the name and
/// the file of the sheet, and lists each name once: among the labels without pins
/// exactly where a label has it and no pin has, and among the pins without labels
/// exactly where a pin has it and no label has.
pub proof fn law_issue_lists_every_unmatched_name(
    sheet: SheetView,
    labels: Seq<LabelView>,
    name: Seq<char>,
)
    ensures
        ({
            let found = mismatch(sheet, labels);
            let label_alone = has_label(labels, name) && !has_pin(sheet.pins, name);
            let pin_alone = has_pin(sheet.pins, name) && !has_label(labels, name);
            &&& label_alone || pin_alone ==> found.len() == 1
            &&& found.len() == 0 || found.len() == 1 && found[0] is Mismatch && {
                let issue = found[0];
                &&& issue->Mismatch_sheet == sheet.name
                &&& issue->Mismatch_file == sheet.file
                &&& issue->labels_without_pins.contains(name) <==> label_alone
                &&& issue->pins_without_labels.contains(name) <==> pin_alone
                &&& issue->labels_without_pins.no_duplicates()
                &&& issue->pins_without_labels.no_duplicates()
                &&& issue->labels_without_pins.len() > 0 || issue->pins_without_labels.len() > 0
            }
        }),
{
    let label_list = label_names(labels);
    let pin_list = pin_names(sheet.pins);
    lemma_names(sheet, labels, name);
    law_reported_names_are_the_unmatched(label_list, pin_list, name);
    law_reported_names_are_the_unmatched(pin_list, label_list, name);
    law_no_name_is_reported_twice(label_list, pin_list);
    law_no_name_is_reported_twice(pin_list, label_list);
    assert(names_without(label_list, pin_list).len() == 0 ==> !names_without(
        label_list,
        pin_list,
    ).contains(name));
    assert(names_without(pin_list, label_list).len() == 0 ==> !names_without(
        pin_list,
        label_list,
    ).contains(name));
}

/// What is reported of a sheet: that its child is missing, where it is; else
/// where its pins are out of step with the labels of the child, followed by what
/// is reported of the child. A child that is not listed is asked for, and one
/// that cannot be read stops the walk.
pub proof fn law_report_of_a_sheet(
    files: Seq<FileView>,
    dir: Seq<char>,
    sheet: SheetView,
    levels: nat,
    ancestors: Seq<Seq<char>>,
    i: int,
)
    ensures
        ({
            let child = joined(dir, sheet.file);
            let report = sheet_issues(files, dir, sheet, levels, ancestors);
            let below = issues_below(files, child, levels, ancestors);
            &&& is_unlisted(files, child) ==> report == Err::<Seq<IssueView>, StopView>(
                StopView::Needed(child),
            )
            &&& is_first_file(files, child, i) && !files[i].exists ==> {
                &&& report is Ok
                &&& report->Ok_0.len() == 1
                &&& report->Ok_0[0] is MissingChild
                &&& report->Ok_0[0]->MissingChild_sheet == sheet.name
                &&& report->Ok_0[0]->MissingChild_file == sheet.file
            }
            &&& is_first_file(files, child, i) && files[i].exists ==> match files[i].document {
                DocumentView::Unreadable(error) => report == Err::<Seq<IssueView>, StopView>(
                    StopView::Unreadable(error),
                ),
                DocumentView::Readable { sheets, labels } => {
                    &&& report is Ok <==> below is Ok
                    &&& report is Err ==> report->Err_0 == below->Err_0
                    &&& report is Ok ==> report->Ok_0 == mismatch(sheet, labels) + below->Ok_0
                },
            }
        }),
{
    law_first_file_is_found(files, joined(dir, sheet.file), i);
}

/// The report is cut at these places into the reports of the sheets from position
/// `k` on, in order.
pub open spec fn is_cut_by_sheet(
    files: Seq<FileView>,
    dir: Seq<char>,
    sheets: Seq<SheetView>,
    k: int,
    levels: nat,
    ancestors: Seq<Seq<char>>,
    report: Seq<IssueView>,
    cuts: Seq<int>,
) -> bool {
    &&& cuts.len() == sheets.len() - k + 1
    &&& cuts[0] == 0
    &&& cuts.last() == report.len()
    &&& forall|j: int|
        0 <= j < sheets.len() - k ==> 0 <= #[trigger] cuts[j] <= cuts[j + 1] <= report.len()
            && sheet_issues(files, dir, sheets[k + j], levels, ancestors) == Ok::<
            Seq<IssueView>,
            StopView,
        >(report.subrange(cuts[j], cuts[j + 1]))
}

proof fn lemma_report_cuts(
    files: Seq<FileView>,
    dir: Seq<char>,
    sheets: Seq<SheetView>,
    k: nat,
    levels: nat,
    ancestors: Seq<Seq<char>>,
) -> (cuts: Seq<int>)
    requires
        k <= sheets.len(),
        sheets_issues(files, dir, sheets, k, levels, ancestors) is Ok,
    ensures
        is_cut_by_sheet(
            files,
            dir,
            sheets,
            k as int,
            levels,
            ancestors,
            sheets_issues(files, dir, sheets, k, levels, ancestors)->Ok_0,
            cuts,
        ),
    decreases sheets.len() - k,
{
    let all = sheets_issues(files, dir, sheets, k, levels, ancestors)->Ok_0;
    if k == sheets.len() {
        seq![0int]
    } else {
        let first = sheet_issues(files, dir, sheets[k as int], levels, ancestors)->Ok_0;
        let rest = sheets_issues(files, dir, sheets, k + 1, levels, ancestors)->Ok_0;
        assert(all == first + rest);
        let later = lemma_report_cuts(files, dir, sheets, k + 1, levels, ancestors);
        let len = first.len() as int;
        let cuts = seq![0int] + later.map_values(|c: int| c + len);
        assert forall|j: int| 0 <= j < sheets.len() - k implies 0 <= #[trigger] cuts[j] <= cuts[j
            + 1] <= all.len() && sheet_issues(files, dir, sheets[k + j], levels, ancestors) == Ok::<
            Seq<IssueView>,
            StopView,
        >(all.subrange(cuts[j], cuts[j + 1])) by {
            if j == 0 {
                assert(cuts[1] == later[0] + len);
                assert(all.subrange(0, len) =~= first);
            } else {
                let m = j - 1;
                assert(0 <= later[m] <= later[m + 1] <= rest.len());
                assert(cuts[j] == later[m] + len);
                assert(cuts[j + 1] == later[m + 1] + len);
                assert(all.subrange(cuts[j], cuts[j + 1]) =~= rest.subrange(
                    later[m],
                    later[m + 1],
                ));
                assert(sheets[k + 1 + m] == sheets[k + j]);
            }
        }
        assert(cuts.last() == later.last() + len);
        cuts
    }
}

/// The report on a file that can be read and is not its own ancestor is made up of
/// the reports on its sheets, in order and with nothing between them. A file that
/// is too deep, is its own ancestor or cannot be read adds nothing, and one that
/// is not listed is asked for.
pub proof fn law_report_of_a_file_holds_each_sheet(
    files: Seq<FileView>,
    path: Seq<char>,
    levels: nat,
    ancestors: Seq<Seq<char>>,
    i: int,
)
    ensures
        ({
            let report = issues_below(files, path, levels, ancestors);
            &&& levels == 0 ==> report is Ok && report->Ok_0.len() == 0
            &&& levels > 0 && is_unlisted(files, path) ==> report == Err::<
                Seq<IssueView>,
                StopView,
            >(StopView::Needed(path))
            &&& levels > 0 && is_first_file(files, path, i) && (ancestors.contains(
                files[i].canonical,
            ) || files[i].document is Unreadable) ==> report is Ok && report->Ok_0.len() == 0
            &&& levels > 0 && is_first_file(files, path, i) && !ancestors.contains(
                files[i].canonical,
            ) ==> (files[i].document matches DocumentView::Readable { sheets, labels } ==> {
                let here = ancestors.push(files[i].canonical);
                let below = (levels - 1) as nat;
                &&& report is Ok <==> forall|k: int|
                    0 <= k < sheets.len() ==> sheet_issues(
                        files,
                        directory_of(path),
                        #[trigger] sheets[k],
                        below,
                        here,
                    ) is Ok
                &&& report is Ok ==> exists|cuts: Seq<int>|
                    #[trigger] is_cut_by_sheet(
                        files,
                        directory_of(path),
                        sheets,
                        0,
                        below,
                        here,
                        report->Ok_0,
                        cuts,
                    )
            })
        }),
{
    law_first_file_is_found(files, path, i);
    if levels > 0 && is_first_file(files, path, i) && !ancestors.contains(files[i].canonical) {
        if let DocumentView::Readable { sheets, labels } = files[i].document {
            let here = ancestors.push(files[i].canonical);
            let dir = directory_of(path);
            let below = (levels - 1) as nat;
            lemma_reports_are_ok(files, dir, sheets, 0, below, here);
            assert(issues_below(files, path, levels, ancestors) == sheets_issues(
                files,
                dir,
                sheets,
                0,
                below,
                here,
            ));
            if sheets_issues(files, dir, sheets, 0, below, here) is Ok {
                let cuts = lemma_report_cuts(files, dir, sheets, 0, below, here);
            }
        }
    }
}

proof fn lemma_reports_are_ok(
    files: Seq<FileView>,
    dir: Seq<char>,
    sheets: Seq<SheetView>,
    k: nat,
    levels: nat,
    ancestors: Seq<Seq<char>>,
)
    ensures
        sheets_issues(files, dir, sheets, k, levels, ancestors) is Ok <==> forall|j: int|
            k <= j < sheets.len() ==> sheet_issues(
                files,
                dir,
                #[trigger] sheets[j],
                levels,
                ancestors,
            ) is Ok,
    decreases sheets.len() - k,
{
    if k < sheets.len() {
        lemma_reports_are_ok(files, dir, sheets, k + 1, levels, ancestors);
        let first = sheet_issues(files, dir, sheets[k as int], levels, ancestors);
        if first is Ok {
            assert(sheets_issues(files, dir, sheets, k, levels, ancestors) is Ok
                <==> sheets_issues(files, dir, sheets, k + 1, levels, ancestors) is Ok);
        } else {
            assert(sheets_issues(files, dir, sheets, k, levels, ancestors) is Err);
        }
    }
}

} // verus!
