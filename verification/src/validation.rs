//! Comparing the pins of each sheet with the hierarchical labels of its child.

use crate::files::{
    file_at, file_views, find_file, lemma_file_at, sheets_of,
    DocumentView, FileView, SchematicFile, StopView, WalkStop, MAX_HIERARCHY_DEPTH,
};
use crate::geometry::SheetBox;
use crate::import::{
    law_import_gives_every_label_a_pin, lemma_new_labels_are_new, new_labels, planned_pins,
};
use crate::model::{
    label_names, label_views, lemma_pin_named, names_of, pin_named, pin_names, sheet_views, HierarchicalLabel,
    LabelView, PinView, Sheet, SheetView,
};
use crate::paths::{directory_of, join_path, joined, parent_dir};
use crate::text::{contains_text, texts};
use vstd::prelude::*;

verus! {

/// What is wrong with a sheet.
#[derive(Debug)]
pub enum SheetIssue {
    /// The child file is not on disk.
    MissingChild { sheet: String, file: String },
    /// Labels and pins do not match.
    Mismatch {
        sheet: String,
        file: String,
        labels_without_pins: Vec<String>,
        pins_without_labels: Vec<String>,
    },
}

/// A [`SheetIssue`] by its texts.
pub enum IssueView {
    MissingChild { sheet: Seq<char>, file: Seq<char> },
    Mismatch {
        sheet: Seq<char>,
        file: Seq<char>,
        labels_without_pins: Seq<Seq<char>>,
        pins_without_labels: Seq<Seq<char>>,
    },
}

impl View for SheetIssue {
    type V = IssueView;

    open spec fn view(&self) -> IssueView {
        match self {
            SheetIssue::MissingChild { sheet, file } => IssueView::MissingChild {
                sheet: sheet@,
                file: file@,
            },
            SheetIssue::Mismatch { sheet, file, labels_without_pins, pins_without_labels } => {
                IssueView::Mismatch {
                    sheet: sheet@,
                    file: file@,
                    labels_without_pins: texts(labels_without_pins@),
                    pins_without_labels: texts(pins_without_labels@),
                }
            },
        }
    }
}

pub open spec fn issue_views(issues: Seq<SheetIssue>) -> Seq<IssueView> {
    issues.map_values(|i: SheetIssue| i@)
}

/// The names that are not among the others, each once, in the order in which they
/// first come.
pub open spec fn names_without(names: Seq<Seq<char>>, others: Seq<Seq<char>>) -> Seq<Seq<char>>
    decreases names.len(),
{
    if names.len() == 0 {
        seq![]
    } else {
        let before = names_without(names.drop_last(), others);
        if others.contains(names.last()) || before.contains(names.last()) {
            before
        } else {
            before.push(names.last())
        }
    }
}

/// What is wrong between the pins of a sheet and the labels of its child, if
/// anything.
pub open spec fn mismatch(sheet: SheetView, labels: Seq<LabelView>) -> Seq<IssueView> {
    let label_list = label_names(labels);
    let pin_list = pin_names(sheet.pins);
    let labels_without_pins = names_without(label_list, pin_list);
    let pins_without_labels = names_without(pin_list, label_list);
    if labels_without_pins.len() == 0 && pins_without_labels.len() == 0 {
        seq![]
    } else {
        seq![
            IssueView::Mismatch {
                sheet: sheet.name,
                file: sheet.file,
                labels_without_pins,
                pins_without_labels,
            },
        ]
    }
}

/// The issues in a file and below it. `levels` says how many levels may still be
/// looked into, `ancestors` which files lie above. A file that is its own
/// ancestor, or cannot be loaded, adds none.
pub open spec fn issues_below(
    files: Seq<FileView>,
    path: Seq<char>,
    levels: nat,
    ancestors: Seq<Seq<char>>,
) -> Result<Seq<IssueView>, StopView>
    decreases levels, 0nat, 0nat,
{
    if levels == 0 {
        Ok(seq![])
    } else {
        match file_at(files, path, 0) {
            None => Err(StopView::Needed(path)),
            Some(i) => if ancestors.contains(files[i].canonical) {
                Ok(seq![])
            } else {
                match files[i].document {
                    DocumentView::Unreadable(_) => Ok(seq![]),
                    DocumentView::Readable { sheets, labels } => sheets_issues(
                        files,
                        directory_of(path),
                        sheets,
                        0,
                        (levels - 1) as nat,
                        ancestors.push(files[i].canonical),
                    ),
                }
            },
        }
    }
}

/// The issues of the sheets from position `k` on, and below them.
pub open spec fn sheets_issues(
    files: Seq<FileView>,
    dir: Seq<char>,
    sheets: Seq<SheetView>,
    k: nat,
    levels: nat,
    ancestors: Seq<Seq<char>>,
) -> Result<Seq<IssueView>, StopView>
    decreases levels, 1nat, sheets.len() - k,
{
    if k >= sheets.len() {
        Ok(seq![])
    } else {
        match sheet_issues(files, dir, sheets[k as int], levels, ancestors) {
            Err(stop) => Err(stop),
            Ok(first) => match sheets_issues(files, dir, sheets, k + 1, levels, ancestors) {
                Err(stop) => Err(stop),
                Ok(rest) => Ok(first + rest),
            },
        }
    }
}

/// The issues of one sheet, and below it. Its child has to be readable if it is
/// on disk.
pub open spec fn sheet_issues(
    files: Seq<FileView>,
    dir: Seq<char>,
    sheet: SheetView,
    levels: nat,
    ancestors: Seq<Seq<char>>,
) -> Result<Seq<IssueView>, StopView>
    decreases levels, 1nat, 0nat,
{
    let child = joined(dir, sheet.file);
    match file_at(files, child, 0) {
        None => Err(StopView::Needed(child)),
        Some(i) => if !files[i].exists {
            Ok(seq![IssueView::MissingChild { sheet: sheet.name, file: sheet.file }])
        } else {
            match files[i].document {
                DocumentView::Unreadable(error) => Err(StopView::Unreadable(error)),
                DocumentView::Readable { sheets, labels } => match issues_below(
                    files,
                    child,
                    levels,
                    ancestors,
                ) {
                    Err(stop) => Err(stop),
                    Ok(below) => Ok(mismatch(sheet, labels) + below),
                },
            }
        },
    }
}

fn names_of_labels(labels: &Vec<HierarchicalLabel>) -> (names: Vec<String>)
    ensures
        texts(names@) == label_names(label_views(labels@)),
{
    let ghost all = label_names(label_views(labels@));
    let mut names: Vec<String> = Vec::new();
    let mut i: usize = 0;
    assert(texts(names@) =~= all.take(0));
    while i < labels.len()
        invariant
            i <= labels@.len(),
            all == label_names(label_views(labels@)),
            texts(names@) == all.take(i as int),
        decreases labels@.len() - i,
    {
        let ghost before = names@;
        names.push(labels[i].text.clone());
        assert(texts(names@) =~= texts(before).push(labels@[i as int].text@));
        assert(all.take(i + 1) =~= all.take(i as int).push(all[i as int]));
        i += 1;
    }
    assert(all.take(i as int) =~= all);
    names
}

fn find_names_without(names: &Vec<String>, others: &Vec<String>) -> (found: Vec<String>)
    ensures
        texts(found@) == names_without(texts(names@), texts(others@)),
{
    let ghost all = texts(names@);
    let mut found: Vec<String> = Vec::new();
    let mut i: usize = 0;
    assert(texts(found@) =~= names_without(all.take(0), texts(others@)));
    while i < names.len()
        invariant
            i <= names@.len(),
            all == texts(names@),
            texts(found@) == names_without(all.take(i as int), texts(others@)),
        decreases names@.len() - i,
    {
        assert(all.take(i + 1).drop_last() =~= all.take(i as int));
        assert(all.take(i + 1).last() == names@[i as int]@);
        if !contains_text(others, names[i].as_str()) && !contains_text(&found, names[i].as_str()) {
            let ghost before = found@;
            found.push(names[i].clone());
            assert(texts(found@) =~= texts(before).push(names@[i as int]@));
        }
        i += 1;
    }
    assert(all.take(i as int) =~= all);
    found
}

/// Compare the pins of a sheet with the labels of its child.
pub fn compare_pins(sheet: &Sheet, labels: &Vec<HierarchicalLabel>) -> (issue: Option<SheetIssue>)
    ensures
        match issue {
            Some(found) => mismatch(sheet@, label_views(labels@)) == seq![found@],
            None => mismatch(sheet@, label_views(labels@)).len() == 0,
        },
{
    let label_list = names_of_labels(labels);
    let pin_list = names_of(&sheet.pins);
    let labels_without_pins = find_names_without(&label_list, &pin_list);
    let pins_without_labels = find_names_without(&pin_list, &label_list);
    assert(texts(labels_without_pins@).len() == labels_without_pins@.len());
    assert(texts(pins_without_labels@).len() == pins_without_labels@.len());
    if labels_without_pins.len() == 0 && pins_without_labels.len() == 0 {
        return None;
    }
    Some(
        SheetIssue::Mismatch {
            sheet: sheet.name.clone(),
            file: sheet.file.clone(),
            labels_without_pins,
            pins_without_labels,
        },
    )
}

fn walk_issues(
    files: &Vec<SchematicFile>,
    path: &str,
    levels: usize,
    ancestors: &mut Vec<String>,
    issues: &mut Vec<SheetIssue>,
) -> (result: Result<(), WalkStop>)
    ensures
        match issues_below(
            file_views(files@),
            path@,
            levels as nat,
            texts(old(ancestors)@),
        ) {
            Ok(found) => {
                &&& result is Ok
                &&& texts(final(ancestors)@) == texts(old(ancestors)@)
                &&& issue_views(final(issues)@) == issue_views(old(issues)@) + found
            },
            Err(stop) => result matches Err(e) && e@ == stop,
        },
    decreases levels,
{
    let ghost all = file_views(files@);
    let ghost above = texts(ancestors@);
    let ghost start = issue_views(issues@);
    assert(start + seq![] =~= start);
    if levels == 0 {
        return Ok(());
    }
    let i = match find_file(files, path) {
        Some(i) => i,
        None => {
            return Err(WalkStop::Needed(path.to_owned()));
        },
    };
    if contains_text(ancestors, files[i].canonical.as_str()) {
        return Ok(());
    }
    let document = match &files[i].document {
        Ok(document) => document,
        Err(_) => {
            return Ok(());
        },
    };
    let dir = parent_dir(path);
    ancestors.push(files[i].canonical.clone());
    let ghost here = texts(ancestors@);
    assert(here =~= above.push(all[i as int].canonical));
    let ghost sheets = sheet_views(document.sheets@);
    let ghost below = (levels - 1) as nat;
    let ghost whole = sheets_issues(all, dir@, sheets, 0, below, here);
    assert(issues_below(all, path@, levels as nat, above) == whole);
    let mut k: usize = 0;
    proof {
        if let Ok(rest) = whole {
            assert(start + rest =~= issue_views(issues@) + rest);
        }
    }
    while k < document.sheets.len()
        invariant
            k <= document.sheets@.len(),
            sheets == sheet_views(document.sheets@),
            all == file_views(files@),
            above == texts(old(ancestors)@),
            start == issue_views(old(issues)@),
            here == texts(ancestors@),
            here == above.push(all[i as int].canonical),
            below == levels - 1,
            levels > 0,
            whole == issues_below(all, path@, levels as nat, above),
            match sheets_issues(all, dir@, sheets, k as nat, below, here) {
                Ok(rest) => whole is Ok && start + whole->Ok_0 == issue_views(issues@) + rest,
                Err(stop) => whole == Err::<Seq<IssueView>, StopView>(stop),
            },
        decreases document.sheets@.len() - k,
    {
        let sheet = &document.sheets[k];
        let ghost view = sheets[k as int];
        assert(view == sheet@);
        let ghost before = issue_views(issues@);
        let child = join_path(dir.as_str(), sheet.file.as_str());
        let c = match find_file(files, child.as_str()) {
            Some(c) => c,
            None => {
                return Err(WalkStop::Needed(child));
            },
        };
        if !files[c].exists {
            let ghost list = issues@;
            issues.push(
                SheetIssue::MissingChild { sheet: sheet.name.clone(), file: sheet.file.clone() },
            );
            assert(issue_views(issues@) =~= before + sheet_issues(
                all,
                dir@,
                view,
                below,
                here,
            )->Ok_0);
        } else {
            let labels = match &files[c].document {
                Ok(found) => &found.labels,
                Err(error) => {
                    return Err(WalkStop::Unreadable(error.clone()));
                },
            };
            let ghost wrong = mismatch(view, label_views(labels@));
            match compare_pins(sheet, labels) {
                Some(issue) => {
                    issues.push(issue);
                    assert(issue_views(issues@) =~= before + wrong);
                },
                None => {
                    assert(issue_views(issues@) =~= before + wrong);
                },
            }
            if let Err(stop) = walk_issues(files, child.as_str(), levels - 1, ancestors, issues) {
                return Err(stop);
            }
            let ghost deeper = issues_below(all, child@, below, here)->Ok_0;
            assert((before + wrong) + deeper =~= before + (wrong + deeper));
        }
        proof {
            let first = sheet_issues(all, dir@, view, below, here)->Ok_0;
            assert(issue_views(issues@) == before + first);
            if let Ok(rest) = sheets_issues(all, dir@, sheets, k as nat + 1, below, here) {
                assert(before + (first + rest) =~= issue_views(issues@) + rest);
            }
        }
        k += 1;
    }
    let ghost pushed = ancestors@;
    assert(pushed.len() == here.len());
    let _ = ancestors.pop();
    assert(ancestors@ == pushed.drop_last());
    assert(texts(ancestors@) =~= here.drop_last());
    assert(here.drop_last() =~= above);
    assert(issue_views(issues@) + seq![] =~= issue_views(issues@));
    Ok(())
}

/// Report, for the whole tree of sheets below the schematic at `path`, the labels
/// without a pin and the pins without a label. Changes nothing.
pub fn collect_pin_mismatches(files: &Vec<SchematicFile>, path: &str) -> (result: Result<
    Vec<SheetIssue>,
    WalkStop,
>)
    ensures
        match issues_below(
            file_views(files@),
            path@,
            (MAX_HIERARCHY_DEPTH + 1) as nat,
            seq![],
        ) {
            Ok(found) => result matches Ok(issues) && issue_views(issues@) == found,
            Err(stop) => result matches Err(e) && e@ == stop,
        },
{
    let mut ancestors: Vec<String> = Vec::new();
    let mut issues: Vec<SheetIssue> = Vec::new();
    assert(texts(ancestors@) =~= seq![]);
    let ghost expected = issues_below(
        file_views(files@),
        path@,
        (MAX_HIERARCHY_DEPTH + 1) as nat,
        seq![],
    );
    proof {
        if let Ok(found) = expected {
            assert(issue_views(issues@) + found =~= found);
        }
    }
    match walk_issues(files, path, MAX_HIERARCHY_DEPTH + 1, &mut ancestors, &mut issues) {
        Ok(_) => Ok(issues),
        Err(stop) => Err(stop),
    }
}

proof fn lemma_names_without(names: Seq<Seq<char>>, others: Seq<Seq<char>>)
    ensures
        forall|name: Seq<char>|
            #![trigger names_without(names, others).contains(name)]
            names_without(names, others).contains(name) <==> names.contains(name)
                && !others.contains(name),
    decreases names.len(),
{
    if names.len() > 0 {
        let shorter = names.drop_last();
        let last = names.last();
        let before = names_without(shorter, others);
        let all = names_without(names, others);
        lemma_names_without(shorter, others);
        assert forall|name: Seq<char>| #![trigger all.contains(name)] all.contains(name)
            <==> names.contains(name) && !others.contains(name) by {
            assert(before.contains(name) <==> shorter.contains(name) && !others.contains(name));
            assert(names.contains(name) <==> shorter.contains(name) || name == last) by {
                if names.contains(name) {
                    let i = choose|i: int| 0 <= i < names.len() && names[i] == name;
                    if i < names.len() - 1 {
                        assert(shorter[i] == name);
                    }
                }
                if shorter.contains(name) {
                    let i = choose|i: int| 0 <= i < shorter.len() && shorter[i] == name;
                    assert(names[i] == name);
                }
                assert(names[names.len() - 1] == last);
            }
            if others.contains(last) || before.contains(last) {
            } else {
                assert(all == before.push(last));
                assert(all[before.len() as int] == last);
                if before.contains(name) {
                    let i = choose|i: int| 0 <= i < before.len() && before[i] == name;
                    assert(all[i] == name);
                }
                if all.contains(name) && name != last {
                    let i = choose|i: int| 0 <= i < all.len() && all[i] == name;
                    assert(before[i] == name);
                }
            }
        }
    }
}

/// A name is reported exactly where one side has it and the other has not.
pub proof fn law_reported_names_are_the_unmatched(
    names: Seq<Seq<char>>,
    others: Seq<Seq<char>>,
    name: Seq<char>,
)
    ensures
        names_without(names, others).contains(name) <==> names.contains(name) && !others.contains(
            name,
        ),
{
    lemma_names_without(names, others);
}

/// No name is reported twice.
pub proof fn law_no_name_is_reported_twice(names: Seq<Seq<char>>, others: Seq<Seq<char>>)
    ensures
        names_without(names, others).no_duplicates(),
    decreases names.len(),
{
    if names.len() > 0 {
        law_no_name_is_reported_twice(names.drop_last(), others);
        let before = names_without(names.drop_last(), others);
        let all = names_without(names, others);
        assert forall|i: int, j: int|
            0 <= i < all.len() && 0 <= j < all.len() && i != j implies all[i] != all[j] by {
            if i < before.len() {
                assert(before[i] == all[i]);
            }
            if j < before.len() {
                assert(before[j] == all[j]);
            }
        }
    }
}

/// A sheet has no issue exactly where its pins and the labels of its child have
/// the same names.
pub proof fn law_synced_sheet_has_no_issue(sheet: SheetView, labels: Seq<LabelView>)
    ensures
        mismatch(sheet, labels).len() == 0 <==> forall|name: Seq<char>|
            label_names(labels).contains(name) <==> #[trigger] pin_names(sheet.pins).contains(
                name,
            ),
{
    let label_list = label_names(labels);
    let pin_list = pin_names(sheet.pins);
    let a = names_without(label_list, pin_list);
    let b = names_without(pin_list, label_list);
    lemma_names_without(label_list, pin_list);
    lemma_names_without(pin_list, label_list);
    if a.len() == 0 && b.len() == 0 {
        assert forall|name: Seq<char>|
            label_list.contains(name) <==> #[trigger] pin_list.contains(name) by {
            assert(!a.contains(name));
            assert(!b.contains(name));
        }
    } else if a.len() > 0 {
        assert(a.contains(a[0]));
        assert(!pin_list.contains(a[0]));
    } else {
        assert(b.contains(b[0]));
        assert(pin_list.contains(b[0]));
    }
}

/// After an import no label of the child is without a pin, and the pins that are
/// without a label are those that were before.
pub proof fn law_import_leaves_no_label_without_a_pin(
    b: SheetBox,
    side: Seq<char>,
    pins: Seq<PinView>,
    labels: Seq<LabelView>,
    name: Seq<char>,
)
    ensures
        ({
            let after = pin_names(pins + planned_pins(b, side, pins, labels));
            let label_list = label_names(labels);
            &&& names_without(label_list, after).len() == 0
            &&& names_without(after, label_list).contains(name) <==> names_without(
                pin_names(pins),
                label_list,
            ).contains(name)
        }),
{
    let planned = planned_pins(b, side, pins, labels);
    let all_pins = pins + planned;
    let after = pin_names(all_pins);
    let old_names = pin_names(pins);
    let label_list = label_names(labels);
    law_import_gives_every_label_a_pin(b, side, pins, labels);
    lemma_names_without(label_list, after);
    lemma_names_without(after, label_list);
    lemma_names_without(old_names, label_list);
    let missing = names_without(label_list, after);
    if missing.len() > 0 {
        let lost = missing[0];
        assert(missing.contains(lost));
        let k = choose|k: int| 0 <= k < label_list.len() && label_list[k] == lost;
        assert(labels[k].text == lost);
        lemma_pin_named(all_pins, lost, 0);
        let i = pin_named(all_pins, lost, 0)->0;
        assert(after[i] == lost);
    }
    assert(after.contains(name) && !label_list.contains(name) <==> old_names.contains(name)
        && !label_list.contains(name)) by {
        if after.contains(name) {
            let i = choose|i: int| 0 <= i < after.len() && after[i] == name;
            if i < pins.len() {
                assert(old_names[i] == name);
            } else {
                let n = i - pins.len();
                assert(all_pins[i] == planned[n]);
                lemma_new_labels_are_new(pins, labels);
                let label = new_labels(pins, labels)[n];
                assert(labels.contains(label));
                let k = choose|k: int| 0 <= k < labels.len() && labels[k] == label;
                assert(label_list[k] == name);
            }
        }
        if old_names.contains(name) {
            let i = choose|i: int| 0 <= i < old_names.len() && old_names[i] == name;
            assert(after[i] == name);
        }
    }
}

/// Every sheet of every listed file has its child on disk, readable, and in step
/// with its pins.
pub open spec fn all_synced(files: Seq<FileView>) -> bool {
    forall|i: int, k: int|
        #![trigger sheets_of(files[i])[k]]
        0 <= i < files.len() && 0 <= k < sheets_of(files[i]).len() ==> is_synced(
            files,
            directory_of(files[i].path),
            sheets_of(files[i])[k],
        )
}

/// The child of the sheet is on disk, readable, and in step with its pins.
pub open spec fn is_synced(files: Seq<FileView>, dir: Seq<char>, sheet: SheetView) -> bool {
    match file_at(files, joined(dir, sheet.file), 0) {
        None => false,
        Some(c) => files[c].exists && match files[c].document {
            DocumentView::Readable { sheets, labels } => mismatch(sheet, labels).len() == 0,
            DocumentView::Unreadable(_) => false,
        },
    }
}

proof fn lemma_synced_below(
    files: Seq<FileView>,
    path: Seq<char>,
    levels: nat,
    ancestors: Seq<Seq<char>>,
)
    requires
        all_synced(files),
        file_at(files, path, 0) is Some,
    ensures
        issues_below(files, path, levels, ancestors) == Ok::<Seq<IssueView>, StopView>(seq![]),
    decreases levels, 0nat, 0nat,
{
    if levels > 0 {
        lemma_file_at(files, path, 0);
        let i = file_at(files, path, 0)->0;
        if let DocumentView::Readable { sheets, labels } = files[i].document {
            assert(sheets_of(files[i]) == sheets);
            assert forall|k: int| 0 <= k < sheets.len() implies is_synced(
                files,
                directory_of(path),
                #[trigger] sheets[k],
            ) by {
                assert(sheets_of(files[i])[k] == sheets[k]);
            }
            lemma_synced_sheets(
                files,
                directory_of(path),
                sheets,
                0,
                (levels - 1) as nat,
                ancestors.push(files[i].canonical),
            );
        }
    }
}

proof fn lemma_synced_sheets(
    files: Seq<FileView>,
    dir: Seq<char>,
    sheets: Seq<SheetView>,
    k: nat,
    levels: nat,
    ancestors: Seq<Seq<char>>,
)
    requires
        all_synced(files),
        forall|j: int| 0 <= j < sheets.len() ==> is_synced(files, dir, #[trigger] sheets[j]),
    ensures
        sheets_issues(files, dir, sheets, k, levels, ancestors) == Ok::<Seq<IssueView>, StopView>(
            seq![],
        ),
    decreases levels, 1nat, sheets.len() - k,
{
    if k < sheets.len() {
        let sheet = sheets[k as int];
        assert(is_synced(files, dir, sheet));
        let child = joined(dir, sheet.file);
        lemma_synced_below(files, child, levels, ancestors);
        lemma_synced_sheets(files, dir, sheets, k + 1, levels, ancestors);
        let none = Seq::<IssueView>::empty();
        let c = file_at(files, child, 0)->0;
        if let DocumentView::Readable { sheets: _, labels } = files[c].document {
            assert(mismatch(sheet, labels) =~= none);
        }
        assert(none + none =~= none);
        assert(sheet_issues(files, dir, sheet, levels, ancestors) == Ok::<
            Seq<IssueView>,
            StopView,
        >(none));
    }
}

/// Where every sheet is in step with its child, the report is empty.
pub proof fn law_synced_tree_has_no_issues(files: Seq<FileView>, path: Seq<char>)
    requires
        all_synced(files),
        file_at(files, path, 0) is Some,
    ensures
        issues_below(files, path, (MAX_HIERARCHY_DEPTH + 1) as nat, seq![]) == Ok::<
            Seq<IssueView>,
            StopView,
        >(seq![]),
{
    lemma_synced_below(files, path, (MAX_HIERARCHY_DEPTH + 1) as nat, seq![]);
}

} // verus!
