//! The tree of sheets below a root schematic.

use crate::files::{
    file_at, file_views, find_file, is_closed, lemma_file_at, sheets_of,
    DocumentView, FileView, SchematicFile, MAX_HIERARCHY_DEPTH,
};
use crate::model::{sheet_views, text_of, SheetView};
use crate::paths::{directory_of, join_path, joined, parent_dir};
use crate::sheets::{describe_sheet, summary_of, SheetSummary, SummaryView};
use crate::text::{contains_text, texts};
use vstd::prelude::*;

verus! {

/// A sheet in the tree, with the sheets below it. Where these could not be had,
/// the error says why.
#[derive(Debug)]
pub struct HierarchyNode {
    pub sheet: SheetSummary,
    pub children: Vec<HierarchyNode>,
    pub error: Option<String>,
}

/// A [`HierarchyNode`] by its values.
pub struct NodeView {
    pub sheet: SummaryView,
    pub children: Seq<NodeView>,
    pub error: Option<Seq<char>>,
}

impl HierarchyNode {
    pub open spec fn view(&self) -> NodeView
        decreases self,
    {
        NodeView {
            sheet: self.sheet@,
            children: Seq::new(
                self.children@.len(),
                |i: int|
                    if 0 <= i < self.children@.len() {
                        self.children@[i].view()
                    } else {
                        arbitrary()
                    },
            ),
            error: text_of(self.error),
        }
    }
}

pub open spec fn node_views(nodes: Seq<HierarchyNode>) -> Seq<NodeView> {
    nodes.map_values(|n: HierarchyNode| n@)
}

/// What is below a file: its sheets as nodes, and why there are none where there
/// are none.
#[derive(Debug)]
pub struct Subtree {
    pub children: Vec<HierarchyNode>,
    pub error: Option<String>,
}

/// A [`Subtree`] by its values.
pub struct SubtreeView {
    pub children: Seq<NodeView>,
    pub error: Option<Seq<char>>,
}

impl View for Subtree {
    type V = SubtreeView;

    open spec fn view(&self) -> SubtreeView {
        SubtreeView { children: node_views(self.children@), error: text_of(self.error) }
    }
}

/// A file that is not looked into, and why.
pub open spec fn closed_subtree(error: Seq<char>) -> SubtreeView {
    SubtreeView { children: seq![], error: Some(error) }
}

pub open spec fn too_deep_text() -> Seq<char> {
    "max hierarchy depth exceeded — possible reference cycle"@
}

pub open spec fn cycle_text() -> Seq<char> {
    "cycle detected — this file is already an ancestor in this tree"@
}

pub open spec fn not_on_disk_text() -> Seq<char> {
    "child file not found on disk"@
}

/// What is below a file. `levels` says how many levels may still be looked into,
/// `ancestors` which files lie above. Fails with the path of a file that is
/// needed and is not listed.
pub open spec fn subtree(
    files: Seq<FileView>,
    path: Seq<char>,
    levels: nat,
    ancestors: Seq<Seq<char>>,
) -> Result<SubtreeView, Seq<char>>
    decreases levels, 0nat, 0nat,
{
    if levels == 0 {
        Ok(closed_subtree(too_deep_text()))
    } else {
        match file_at(files, path, 0) {
            None => Err(path),
            Some(i) => if ancestors.contains(files[i].canonical) {
                Ok(closed_subtree(cycle_text()))
            } else {
                match files[i].document {
                    DocumentView::Unreadable(error) => Ok(
                        closed_subtree("failed to load: "@ + error),
                    ),
                    DocumentView::Readable { sheets, labels } => match nodes(
                        files,
                        directory_of(path),
                        sheets,
                        0,
                        (levels - 1) as nat,
                        ancestors.push(files[i].canonical),
                    ) {
                        Ok(children) => Ok(SubtreeView { children, error: None }),
                        Err(needed) => Err(needed),
                    },
                }
            },
        }
    }
}

/// The sheets from position `k` on, as nodes.
pub open spec fn nodes(
    files: Seq<FileView>,
    dir: Seq<char>,
    sheets: Seq<SheetView>,
    k: nat,
    levels: nat,
    ancestors: Seq<Seq<char>>,
) -> Result<Seq<NodeView>, Seq<char>>
    decreases levels, 1nat, sheets.len() - k,
{
    if k >= sheets.len() {
        Ok(seq![])
    } else {
        match node(files, dir, sheets[k as int], levels, ancestors) {
            Err(needed) => Err(needed),
            Ok(first) => match nodes(files, dir, sheets, k + 1, levels, ancestors) {
                Err(needed) => Err(needed),
                Ok(rest) => Ok(seq![first] + rest),
            },
        }
    }
}

/// One sheet as a node.
pub open spec fn node(
    files: Seq<FileView>,
    dir: Seq<char>,
    sheet: SheetView,
    levels: nat,
    ancestors: Seq<Seq<char>>,
) -> Result<NodeView, Seq<char>>
    decreases levels, 1nat, 0nat,
{
    let child = joined(dir, sheet.file);
    match file_at(files, child, 0) {
        None => Err(child),
        Some(i) => if files[i].exists {
            match subtree(files, child, levels, ancestors) {
                Ok(sub) => Ok(
                    NodeView {
                        sheet: summary_of(sheet),
                        children: sub.children,
                        error: sub.error,
                    },
                ),
                Err(needed) => Err(needed),
            }
        } else {
            Ok(
                NodeView {
                    sheet: summary_of(sheet),
                    children: seq![],
                    error: Some(not_on_disk_text()),
                },
            )
        },
    }
}

fn closed_tree(error: &str) -> (tree: Subtree)
    ensures
        tree@ == closed_subtree(error@),
{
    let tree = Subtree { children: Vec::new(), error: Some(error.to_owned()) };
    assert(tree@.children =~= seq![]);
    tree
}

fn build_subtree(
    files: &Vec<SchematicFile>,
    path: &str,
    levels: usize,
    ancestors: &mut Vec<String>,
) -> (result: Result<Subtree, String>)
    ensures
        match result {
            Ok(tree) => subtree(
                file_views(files@),
                path@,
                levels as nat,
                texts(old(ancestors)@),
            ) == Ok::<SubtreeView, Seq<char>>(tree@) && texts(final(ancestors)@) == texts(
                old(ancestors)@,
            ),
            Err(needed) => subtree(
                file_views(files@),
                path@,
                levels as nat,
                texts(old(ancestors)@),
            ) == Err::<SubtreeView, Seq<char>>(needed@),
        },
    decreases levels,
{
    let ghost all = file_views(files@);
    let ghost above = texts(ancestors@);
    if levels == 0 {
        return Ok(closed_tree("max hierarchy depth exceeded — possible reference cycle"));
    }
    let i = match find_file(files, path) {
        Some(i) => i,
        None => {
            return Err(path.to_owned());
        },
    };
    if contains_text(ancestors, files[i].canonical.as_str()) {
        return Ok(closed_tree("cycle detected — this file is already an ancestor in this tree"));
    }
    let document = match &files[i].document {
        Ok(document) => document,
        Err(error) => {
            let mut message = "failed to load: ".to_owned();
            message.append(error.as_str());
            return Ok(closed_tree(message.as_str()));
        },
    };
    let dir = parent_dir(path);
    ancestors.push(files[i].canonical.clone());
    let ghost here = texts(ancestors@);
    assert(here =~= above.push(all[i as int].canonical));
    let ghost sheets = sheet_views(document.sheets@);
    let ghost below = (levels - 1) as nat;
    let mut children: Vec<HierarchyNode> = Vec::new();
    let mut k: usize = 0;
    assert(node_views(children@) =~= seq![]);
    while k < document.sheets.len()
        invariant
            k <= document.sheets@.len(),
            sheets == sheet_views(document.sheets@),
            all == file_views(files@),
            above == texts(old(ancestors)@),
            here == texts(ancestors@),
            here == above.push(all[i as int].canonical),
            dir@ == directory_of(path@),
            below == levels - 1,
            levels > 0,
            node_views(children@).len() == k,
            match nodes(all, dir@, sheets, k as nat, below, here) {
                Ok(rest) => nodes(all, dir@, sheets, 0, below, here) == Ok::<
                    Seq<NodeView>,
                    Seq<char>,
                >(node_views(children@) + rest),
                Err(needed) => nodes(all, dir@, sheets, 0, below, here) == Err::<
                    Seq<NodeView>,
                    Seq<char>,
                >(needed),
            },
            match nodes(all, dir@, sheets, 0, below, here) {
                Ok(built) => subtree(all, path@, levels as nat, above) == Ok::<
                    SubtreeView,
                    Seq<char>,
                >(SubtreeView { children: built, error: None }),
                Err(needed) => subtree(all, path@, levels as nat, above) == Err::<
                    SubtreeView,
                    Seq<char>,
                >(needed),
            },
        decreases document.sheets@.len() - k,
    {
        let sheet = &document.sheets[k];
        assert(sheets[k as int] == sheet@);
        let child = join_path(dir.as_str(), sheet.file.as_str());
        let c = match find_file(files, child.as_str()) {
            Some(c) => c,
            None => {
                return Err(child);
            },
        };
        let sub = if files[c].exists {
            match build_subtree(files, child.as_str(), levels - 1, ancestors) {
                Ok(sub) => sub,
                Err(needed) => {
                    return Err(needed);
                },
            }
        } else {
            closed_tree("child file not found on disk")
        };
        let ghost sub_view = sub@;
        let ghost before = children@;
        let built = HierarchyNode {
            sheet: describe_sheet(sheet),
            children: sub.children,
            error: sub.error,
        };
        assert(built@.children =~= sub_view.children);
        assert(node(all, dir@, sheets[k as int], below, here) == Ok::<NodeView, Seq<char>>(
            built@,
        ));
        children.push(built);
        assert(node_views(children@) =~= node_views(before).push(built@));
        proof {
            if let Ok(rest) = nodes(all, dir@, sheets, k as nat + 1, below, here) {
                assert(node_views(before) + (seq![built@] + rest) =~= node_views(children@)
                    + rest);
            }
        }
        k += 1;
    }
    let ghost pushed = ancestors@;
    assert(pushed.len() == here.len());
    let _ = ancestors.pop();
    assert(ancestors@ == pushed.drop_last());
    assert(texts(ancestors@) =~= here.drop_last());
    assert(here.drop_last() =~= above);
    let tree = Subtree { children, error: None };
    assert(node_views(tree.children@) + seq![] =~= node_views(tree.children@));
    Ok(tree)
}

/// The tree of sheets below the schematic at `path`, from the files that are
/// listed. Where a file is needed that is not listed, its path is given instead;
/// a missing child, a file that cannot be loaded and a file that is its own
/// ancestor are reported in the tree.
pub fn build_hierarchy_node(files: &Vec<SchematicFile>, path: &str) -> (tree: Result<
    Subtree,
    String,
>)
    ensures
        match tree {
            Ok(found) => subtree(
                file_views(files@),
                path@,
                (MAX_HIERARCHY_DEPTH + 1) as nat,
                seq![],
            ) == Ok::<SubtreeView, Seq<char>>(found@),
            Err(needed) => subtree(
                file_views(files@),
                path@,
                (MAX_HIERARCHY_DEPTH + 1) as nat,
                seq![],
            ) == Err::<SubtreeView, Seq<char>>(needed@),
        },
{
    let mut ancestors: Vec<String> = Vec::new();
    assert(texts(ancestors@) =~= seq![]);
    build_subtree(files, path, MAX_HIERARCHY_DEPTH + 1, &mut ancestors)
}

/// The nodes reach down no more than that many levels.
pub open spec fn no_deeper(list: Seq<NodeView>, levels: nat) -> bool
    decreases levels,
{
    list.len() == 0 || (levels > 0 && forall|i: int|
        0 <= i < list.len() ==> no_deeper((#[trigger] list[i]).children, (levels - 1) as nat))
}

proof fn lemma_subtree_depth(
    files: Seq<FileView>,
    path: Seq<char>,
    levels: nat,
    ancestors: Seq<Seq<char>>,
)
    ensures
        subtree(files, path, levels, ancestors) matches Ok(tree) ==> no_deeper(
            tree.children,
            levels,
        ),
    decreases levels, 0nat, 0nat,
{
    if levels > 0 {
        if let Some(i) = file_at(files, path, 0) {
            if let DocumentView::Readable { sheets, labels } = files[i].document {
                lemma_nodes_depth(
                    files,
                    directory_of(path),
                    sheets,
                    0,
                    (levels - 1) as nat,
                    ancestors.push(files[i].canonical),
                );
            }
        }
    }
}

proof fn lemma_nodes_depth(
    files: Seq<FileView>,
    dir: Seq<char>,
    sheets: Seq<SheetView>,
    k: nat,
    levels: nat,
    ancestors: Seq<Seq<char>>,
)
    ensures
        nodes(files, dir, sheets, k, levels, ancestors) matches Ok(list) ==> no_deeper(
            list,
            levels + 1,
        ),
    decreases levels, 1nat, sheets.len() - k,
{
    if k < sheets.len() {
        lemma_subtree_depth(files, joined(dir, sheets[k as int].file), levels, ancestors);
        lemma_nodes_depth(files, dir, sheets, k + 1, levels, ancestors);
        if let Ok(list) = nodes(files, dir, sheets, k, levels, ancestors) {
            let first = node(files, dir, sheets[k as int], levels, ancestors)->Ok_0;
            let rest = nodes(files, dir, sheets, k + 1, levels, ancestors)->Ok_0;
            assert(no_deeper(first.children, levels));
            assert forall|i: int| 0 <= i < list.len() implies no_deeper(
                (#[trigger] list[i]).children,
                (levels + 1 - 1) as nat,
            ) by {
                if i == 0 {
                    assert(list[i] == first);
                } else {
                    assert(list[i] == rest[i - 1]);
                }
            }
        }
    }
}

/// The tree is never deeper than the limit, whatever the files refer to.
pub proof fn law_tree_depth_is_bounded(files: Seq<FileView>, path: Seq<char>)
    ensures
        subtree(files, path, (MAX_HIERARCHY_DEPTH + 1) as nat, seq![]) matches Ok(tree)
            ==> no_deeper(tree.children, (MAX_HIERARCHY_DEPTH + 1) as nat),
{
    lemma_subtree_depth(files, path, (MAX_HIERARCHY_DEPTH + 1) as nat, seq![]);
}

proof fn lemma_closed_subtree(
    files: Seq<FileView>,
    path: Seq<char>,
    levels: nat,
    ancestors: Seq<Seq<char>>,
)
    requires
        is_closed(files),
        file_at(files, path, 0) is Some,
    ensures
        subtree(files, path, levels, ancestors) is Ok,
    decreases levels, 0nat, 0nat,
{
    if levels > 0 {
        lemma_file_at(files, path, 0);
        let i = file_at(files, path, 0)->0;
        if let DocumentView::Readable { sheets, labels } = files[i].document {
            assert(sheets_of(files[i]) == sheets);
            assert forall|k: int| 0 <= k < sheets.len() implies file_at(
                files,
                joined(directory_of(path), (#[trigger] sheets[k]).file),
                0,
            ) is Some by {
                assert(sheets_of(files[i])[k] == sheets[k]);
            }
            lemma_closed_nodes(
                files,
                directory_of(path),
                sheets,
                0,
                (levels - 1) as nat,
                ancestors.push(files[i].canonical),
            );
        }
    }
}

proof fn lemma_closed_nodes(
    files: Seq<FileView>,
    dir: Seq<char>,
    sheets: Seq<SheetView>,
    k: nat,
    levels: nat,
    ancestors: Seq<Seq<char>>,
)
    requires
        is_closed(files),
        forall|j: int|
            0 <= j < sheets.len() ==> file_at(files, joined(dir, (#[trigger] sheets[j]).file), 0)
                is Some,
    ensures
        nodes(files, dir, sheets, k, levels, ancestors) is Ok,
    decreases levels, 1nat, sheets.len() - k,
{
    if k < sheets.len() {
        assert(file_at(files, joined(dir, sheets[k as int].file), 0) is Some);
        lemma_closed_subtree(files, joined(dir, sheets[k as int].file), levels, ancestors);
        assert(node(files, dir, sheets[k as int], levels, ancestors) is Ok);
        lemma_closed_nodes(files, dir, sheets, k + 1, levels, ancestors);
    }
}

/// Once every file that a listed one refers to is listed, the tree is built:
/// missing files, files that cannot be loaded and cycles never make it fail.
pub proof fn law_tree_never_fails_on_listed_files(files: Seq<FileView>, path: Seq<char>)
    requires
        is_closed(files),
        file_at(files, path, 0) is Some,
    ensures
        subtree(files, path, (MAX_HIERARCHY_DEPTH + 1) as nat, seq![]) is Ok,
{
    lemma_closed_subtree(files, path, (MAX_HIERARCHY_DEPTH + 1) as nat, seq![]);
}

/// Each sheet of a file has one node in the tree, in the order of the file, with
/// its own description.
pub proof fn law_each_sheet_has_its_node(
    files: Seq<FileView>,
    dir: Seq<char>,
    sheets: Seq<SheetView>,
    k: nat,
    levels: nat,
    ancestors: Seq<Seq<char>>,
)
    requires
        k <= sheets.len(),
        nodes(files, dir, sheets, k, levels, ancestors) is Ok,
    ensures
        ({
            let list = nodes(files, dir, sheets, k, levels, ancestors)->Ok_0;
            &&& list.len() == sheets.len() - k
            &&& forall|i: int|
                0 <= i < list.len() ==> (#[trigger] list[i]).sheet == summary_of(sheets[k + i])
                    && node(files, dir, sheets[k + i], levels, ancestors) == Ok::<
                    NodeView,
                    Seq<char>,
                >(list[i])
        }),
    decreases sheets.len() - k,
{
    if k < sheets.len() {
        law_each_sheet_has_its_node(files, dir, sheets, k + 1, levels, ancestors);
        let list = nodes(files, dir, sheets, k, levels, ancestors)->Ok_0;
        let first = node(files, dir, sheets[k as int], levels, ancestors)->Ok_0;
        let rest = nodes(files, dir, sheets, k + 1, levels, ancestors)->Ok_0;
        assert forall|i: int| 0 <= i < list.len() implies (#[trigger] list[i]).sheet == summary_of(
            sheets[k + i],
        ) && node(files, dir, sheets[k + i], levels, ancestors) == Ok::<NodeView, Seq<char>>(
            list[i],
        ) by {
            if i == 0 {
                assert(list[i] == first);
            } else {
                assert(list[i] == rest[i - 1]);
            }
        }
    }
}

/// A file that is its own ancestor is reported, and not looked into again.
pub proof fn law_cycle_is_reported(
    files: Seq<FileView>,
    path: Seq<char>,
    levels: nat,
    ancestors: Seq<Seq<char>>,
)
    requires
        levels > 0,
        file_at(files, path, 0) is Some,
        ancestors.contains(files[file_at(files, path, 0)->0].canonical),
    ensures
        subtree(files, path, levels, ancestors) == Ok::<SubtreeView, Seq<char>>(
            closed_subtree(cycle_text()),
        ),
{
}

} // verus!
