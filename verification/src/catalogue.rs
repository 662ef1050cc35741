//! The tools that the library offers: what each is called, what it does, and the
//! arguments it takes.

use crate::geometry::{is_pin_type, is_side};
use crate::new_sheets::{DEFAULT_HEIGHT, DEFAULT_POSITION, DEFAULT_WIDTH};
use crate::numeral::{decimal, fixed_text};
use vstd::prelude::*;

verus! {

/// The kind of an argument.
#[derive(Clone, Copy, Debug, PartialEq, Eq, Structural)]
pub enum ParamKind {
    Text,
    Number,
}

/// An argument of a tool. Where there are choices, the argument is one of them.
#[derive(Debug)]
pub struct ToolParam {
    pub name: &'static str,
    pub kind: ParamKind,
    pub description: Option<&'static str>,
    pub choices: Vec<&'static str>,
    pub required: bool,
}

/// A [`ToolParam`] by its texts.
#[verifier::ext_equal]
pub struct ParamView {
    pub name: Seq<char>,
    pub kind: ParamKind,
    pub description: Option<Seq<char>>,
    pub choices: Seq<Seq<char>>,
    pub required: bool,
}

pub open spec fn literal_text(t: Option<&'static str>) -> Option<Seq<char>> {
    match t {
        Some(s) => Some(s@),
        None => None,
    }
}

pub open spec fn literal_texts(list: Seq<&'static str>) -> Seq<Seq<char>> {
    list.map_values(|s: &'static str| s@)
}

impl View for ToolParam {
    type V = ParamView;

    open spec fn view(&self) -> ParamView {
        ParamView {
            name: self.name@,
            kind: self.kind,
            description: literal_text(self.description),
            choices: literal_texts(self.choices@),
            required: self.required,
        }
    }
}

/// A tool: its name, what it does, and the arguments it takes.
#[derive(Debug)]
pub struct ToolDef {
    pub name: &'static str,
    pub description: &'static str,
    pub params: Vec<ToolParam>,
}

/// A [`ToolDef`] by its texts.
#[verifier::ext_equal]
pub struct ToolView {
    pub name: Seq<char>,
    pub description: Seq<char>,
    pub params: Seq<ParamView>,
}

impl View for ToolDef {
    type V = ToolView;

    open spec fn view(&self) -> ToolView {
        ToolView {
            name: self.name@,
            description: self.description@,
            params: self.params@.map_values(|p: ToolParam| p@),
        }
    }
}

/// The edges of a sheet box, in the order in which they are offered.
pub open spec fn side_names() -> Seq<Seq<char>> {
    seq!["right"@, "left"@, "top"@, "bottom"@]
}

/// The electrical types of a pin, in the order in which they are offered.
pub open spec fn pin_type_names() -> Seq<Seq<char>> {
    seq!["input"@, "output"@, "bidirectional"@, "tri_state"@, "passive"@]
}

pub open spec fn side_text() -> Seq<char> {
    "Which edge of the sheet box the pin sits on. This is what KiCad reads the pin's orientation from (right 0°, top 90°, left 180°, bottom 270°); it is not inferred from the position. When given, the position must already be on that edge or the call is refused, because KiCad would otherwise move the pin to the named edge on load. Default: 'right', which is what these tools have always written."@
}

pub open spec fn project_name_text() -> Seq<char> {
    "Project name key for instance entries. Default: the schematic file's stem (matching eeschema)"@
}

fn side_description() -> (text: &'static str)
    ensures
        text@ == side_text(),
{
    "Which edge of the sheet box the pin sits on. This is what KiCad reads the pin's orientation from (right 0°, top 90°, left 180°, bottom 270°); it is not inferred from the position. When given, the position must already be on that edge or the call is refused, because KiCad would otherwise move the pin to the named edge on load. Default: 'right', which is what these tools have always written."
}

fn project_name_description() -> (text: &'static str)
    ensures
        text@ == project_name_text(),
{
    "Project name key for instance entries. Default: the schematic file's stem (matching eeschema)"
}

fn side_choices() -> (list: Vec<&'static str>)
    ensures
        literal_texts(list@) == side_names(),
{
    let mut list: Vec<&'static str> = Vec::new();
    list.push("right");
    list.push("left");
    list.push("top");
    list.push("bottom");
    assert(literal_texts(list@) =~= side_names());
    list
}

fn pin_type_choices() -> (list: Vec<&'static str>)
    ensures
        literal_texts(list@) == pin_type_names(),
{
    let mut list: Vec<&'static str> = Vec::new();
    list.push("input");
    list.push("output");
    list.push("bidirectional");
    list.push("tri_state");
    list.push("passive");
    assert(literal_texts(list@) =~= pin_type_names());
    list
}

fn no_choices() -> (list: Vec<&'static str>)
    ensures
        literal_texts(list@) == Seq::<Seq<char>>::empty(),
{
    let list: Vec<&'static str> = Vec::new();
    assert(literal_texts(list@) =~= Seq::<Seq<char>>::empty());
    list
}

pub open spec fn param_view(
    name: Seq<char>,
    kind: ParamKind,
    description: Option<Seq<char>>,
    choices: Seq<Seq<char>>,
    required: bool,
) -> ParamView {
    ParamView { name, kind, description, choices, required }
}

fn param(
    name: &'static str,
    kind: ParamKind,
    description: Option<&'static str>,
    choices: Vec<&'static str>,
    required: bool,
) -> (made: ToolParam)
    ensures
        made@ == param_view(
            name@,
            kind,
            literal_text(description),
            literal_texts(choices@),
            required,
        ),
{
    ToolParam { name, kind, description, choices, required }
}

pub open spec fn add_hierarchical_sheet_tool() -> ToolView {
    ToolView {
        name: "add_hierarchical_sheet"@,
        description: "Insert a hierarchical sheet into a parent schematic, linking it to a child .kicad_sch file. Creates the child file (blank) if it doesn't exist yet, or links to it as-is if it does — reusing an existing file places the *same* sub-circuit at a second location (KiCAD's multi-instance sheet pattern) rather than duplicating it. If the linked file already has symbols in it, their hierarchical instance paths are patched immediately so ERC resolves them."@,
        params: seq![
            param_view("schematic"@, ParamKind::Text, Some("Path to the parent .kicad_sch file"@), seq![], true),
            param_view("sheet_file"@, ParamKind::Text, Some("Filename of the child .kicad_sch, resolved relative to the parent's directory"@), seq![], true),
            param_view("sheet_name"@, ParamKind::Text, Some("Display name (Sheetname property). Default: 'Sheet'"@), seq![], false),
            param_view("x"@, ParamKind::Number, Some("Top-left X in mm. Default: 50"@), seq![], false),
            param_view("y"@, ParamKind::Number, Some("Top-left Y in mm. Default: 50"@), seq![], false),
            param_view("width"@, ParamKind::Number, Some("Sheet box width in mm. Default: 80"@), seq![], false),
            param_view("height"@, ParamKind::Number, Some("Sheet box height in mm. Default: 50"@), seq![], false),
            param_view("project_name"@, ParamKind::Text, Some("Project name key for the page-number instance entry. Default: the schematic file's stem (matching eeschema)"@), seq![], false),
        ],
    }
}

fn describe_add_hierarchical_sheet() -> (tool: ToolDef)
    ensures
        tool@ == add_hierarchical_sheet_tool(),
{
    let mut params: Vec<ToolParam> = Vec::new();
    params.push(param("schematic", ParamKind::Text, Some("Path to the parent .kicad_sch file"), no_choices(), true));
    params.push(param("sheet_file", ParamKind::Text, Some("Filename of the child .kicad_sch, resolved relative to the parent's directory"), no_choices(), true));
    params.push(param("sheet_name", ParamKind::Text, Some("Display name (Sheetname property). Default: 'Sheet'"), no_choices(), false));
    params.push(param("x", ParamKind::Number, Some("Top-left X in mm. Default: 50"), no_choices(), false));
    params.push(param("y", ParamKind::Number, Some("Top-left Y in mm. Default: 50"), no_choices(), false));
    params.push(param("width", ParamKind::Number, Some("Sheet box width in mm. Default: 80"), no_choices(), false));
    params.push(param("height", ParamKind::Number, Some("Sheet box height in mm. Default: 50"), no_choices(), false));
    params.push(param("project_name", ParamKind::Text, Some("Project name key for the page-number instance entry. Default: the schematic file's stem (matching eeschema)"), no_choices(), false));
    let tool = ToolDef {
        name: "add_hierarchical_sheet",
        description: "Insert a hierarchical sheet into a parent schematic, linking it to a child .kicad_sch file. Creates the child file (blank) if it doesn't exist yet, or links to it as-is if it does — reusing an existing file places the *same* sub-circuit at a second location (KiCAD's multi-instance sheet pattern) rather than duplicating it. If the linked file already has symbols in it, their hierarchical instance paths are patched immediately so ERC resolves them.",
        params,
    };
    assert(tool@.params =~= add_hierarchical_sheet_tool().params);
    tool
}

pub open spec fn edit_sheet_tool() -> ToolView {
    ToolView {
        name: "edit_sheet"@,
        description: "Rename, resize, reposition, or repoint (Sheetfile) an existing sheet. Provide at least one of: new_name, new_file, or both x+y, or both width+height. Does NOT rename the child file on disk when new_file is given — it only repoints the reference; the file itself must already exist at that path."@,
        params: seq![
            param_view("schematic"@, ParamKind::Text, None, seq![], true),
            param_view("sheet_name"@, ParamKind::Text, Some("Current Sheetname to look up"@), seq![], true),
            param_view("new_name"@, ParamKind::Text, None, seq![], false),
            param_view("new_file"@, ParamKind::Text, None, seq![], false),
            param_view("x"@, ParamKind::Number, None, seq![], false),
            param_view("y"@, ParamKind::Number, None, seq![], false),
            param_view("width"@, ParamKind::Number, None, seq![], false),
            param_view("height"@, ParamKind::Number, None, seq![], false),
            param_view("project_name"@, ParamKind::Text, Some(project_name_text()), seq![], false),
        ],
    }
}

fn describe_edit_sheet() -> (tool: ToolDef)
    ensures
        tool@ == edit_sheet_tool(),
{
    let mut params: Vec<ToolParam> = Vec::new();
    params.push(param("schematic", ParamKind::Text, None, no_choices(), true));
    params.push(param("sheet_name", ParamKind::Text, Some("Current Sheetname to look up"), no_choices(), true));
    params.push(param("new_name", ParamKind::Text, None, no_choices(), false));
    params.push(param("new_file", ParamKind::Text, None, no_choices(), false));
    params.push(param("x", ParamKind::Number, None, no_choices(), false));
    params.push(param("y", ParamKind::Number, None, no_choices(), false));
    params.push(param("width", ParamKind::Number, None, no_choices(), false));
    params.push(param("height", ParamKind::Number, None, no_choices(), false));
    params.push(param("project_name", ParamKind::Text, Some(project_name_description()), no_choices(), false));
    let tool = ToolDef {
        name: "edit_sheet",
        description: "Rename, resize, reposition, or repoint (Sheetfile) an existing sheet. Provide at least one of: new_name, new_file, or both x+y, or both width+height. Does NOT rename the child file on disk when new_file is given — it only repoints the reference; the file itself must already exist at that path.",
        params,
    };
    assert(tool@.params =~= edit_sheet_tool().params);
    tool
}

pub open spec fn move_sheet_tool() -> ToolView {
    ToolView {
        name: "move_sheet"@,
        description: "Reposition a sheet on the parent canvas without touching any other field."@,
        params: seq![
            param_view("schematic"@, ParamKind::Text, None, seq![], true),
            param_view("sheet_name"@, ParamKind::Text, None, seq![], true),
            param_view("x"@, ParamKind::Number, None, seq![], true),
            param_view("y"@, ParamKind::Number, None, seq![], true),
        ],
    }
}

fn describe_move_sheet() -> (tool: ToolDef)
    ensures
        tool@ == move_sheet_tool(),
{
    let mut params: Vec<ToolParam> = Vec::new();
    params.push(param("schematic", ParamKind::Text, None, no_choices(), true));
    params.push(param("sheet_name", ParamKind::Text, None, no_choices(), true));
    params.push(param("x", ParamKind::Number, None, no_choices(), true));
    params.push(param("y", ParamKind::Number, None, no_choices(), true));
    let tool = ToolDef {
        name: "move_sheet",
        description: "Reposition a sheet on the parent canvas without touching any other field.",
        params,
    };
    assert(tool@.params =~= move_sheet_tool().params);
    tool
}

pub open spec fn delete_sheet_tool() -> ToolView {
    ToolView {
        name: "delete_sheet"@,
        description: "Remove a sheet reference from the parent schematic. Does NOT delete the child .kicad_sch file on disk. Remaining sheets' page numbers may now have a gap — call renumber_sheet_pages afterward if that matters."@,
        params: seq![
            param_view("schematic"@, ParamKind::Text, None, seq![], true),
            param_view("sheet_name"@, ParamKind::Text, None, seq![], true),
        ],
    }
}

fn describe_delete_sheet() -> (tool: ToolDef)
    ensures
        tool@ == delete_sheet_tool(),
{
    let mut params: Vec<ToolParam> = Vec::new();
    params.push(param("schematic", ParamKind::Text, None, no_choices(), true));
    params.push(param("sheet_name", ParamKind::Text, None, no_choices(), true));
    let tool = ToolDef {
        name: "delete_sheet",
        description: "Remove a sheet reference from the parent schematic. Does NOT delete the child .kicad_sch file on disk. Remaining sheets' page numbers may now have a gap — call renumber_sheet_pages afterward if that matters.",
        params,
    };
    assert(tool@.params =~= delete_sheet_tool().params);
    tool
}

pub open spec fn duplicate_sheet_tool() -> ToolView {
    ToolView {
        name: "duplicate_sheet"@,
        description: "Copy an existing sheet and its child .kicad_sch file under a new name/file, offset slightly so the new sheet box doesn't overlap the source. The copy gets its own internal schematic UUID and its symbols' hierarchical instance paths are patched for the new sheet — it is a fully independent sub-circuit, not a live-linked reuse (for that, use add_hierarchical_sheet pointed at the existing file)."@,
        params: seq![
            param_view("schematic"@, ParamKind::Text, None, seq![], true),
            param_view("source_sheet_name"@, ParamKind::Text, None, seq![], true),
            param_view("new_sheet_name"@, ParamKind::Text, None, seq![], true),
            param_view("new_file"@, ParamKind::Text, Some("Filename for the copy, resolved relative to the parent's directory. Must not already exist."@), seq![], true),
            param_view("project_name"@, ParamKind::Text, Some(project_name_text()), seq![], false),
        ],
    }
}

fn describe_duplicate_sheet() -> (tool: ToolDef)
    ensures
        tool@ == duplicate_sheet_tool(),
{
    let mut params: Vec<ToolParam> = Vec::new();
    params.push(param("schematic", ParamKind::Text, None, no_choices(), true));
    params.push(param("source_sheet_name", ParamKind::Text, None, no_choices(), true));
    params.push(param("new_sheet_name", ParamKind::Text, None, no_choices(), true));
    params.push(param("new_file", ParamKind::Text, Some("Filename for the copy, resolved relative to the parent's directory. Must not already exist."), no_choices(), true));
    params.push(param("project_name", ParamKind::Text, Some(project_name_description()), no_choices(), false));
    let tool = ToolDef {
        name: "duplicate_sheet",
        description: "Copy an existing sheet and its child .kicad_sch file under a new name/file, offset slightly so the new sheet box doesn't overlap the source. The copy gets its own internal schematic UUID and its symbols' hierarchical instance paths are patched for the new sheet — it is a fully independent sub-circuit, not a live-linked reuse (for that, use add_hierarchical_sheet pointed at the existing file).",
        params,
    };
    assert(tool@.params =~= duplicate_sheet_tool().params);
    tool
}

pub open spec fn get_sheet_hierarchy_tool() -> ToolView {
    ToolView {
        name: "get_sheet_hierarchy"@,
        description: "Recursively walk the sheet tree starting from a schematic file, returning nested JSON: each sheet's name/file/uuid/position/size/page/pins plus its own children. Handles missing child files and reference cycles gracefully instead of failing."@,
        params: seq![
            param_view("schematic"@, ParamKind::Text, Some("Root schematic to start from"@), seq![], true),
            param_view("project_name"@, ParamKind::Text, Some(project_name_text()), seq![], false),
        ],
    }
}

fn describe_get_sheet_hierarchy() -> (tool: ToolDef)
    ensures
        tool@ == get_sheet_hierarchy_tool(),
{
    let mut params: Vec<ToolParam> = Vec::new();
    params.push(param("schematic", ParamKind::Text, Some("Root schematic to start from"), no_choices(), true));
    params.push(param("project_name", ParamKind::Text, Some(project_name_description()), no_choices(), false));
    let tool = ToolDef {
        name: "get_sheet_hierarchy",
        description: "Recursively walk the sheet tree starting from a schematic file, returning nested JSON: each sheet's name/file/uuid/position/size/page/pins plus its own children. Handles missing child files and reference cycles gracefully instead of failing.",
        params,
    };
    assert(tool@.params =~= get_sheet_hierarchy_tool().params);
    tool
}

pub open spec fn renumber_sheet_pages_tool() -> ToolView {
    ToolView {
        name: "renumber_sheet_pages"@,
        description: "Walk the whole sheet tree from a root schematic and reassign sequential page numbers (2, 3, 4, ... — page 1 is always the root and is left untouched) in depth-first order. Fixes gaps left by delete_sheet/duplicate_sheet. Only touches files whose page numbers actually changed."@,
        params: seq![
            param_view("schematic"@, ParamKind::Text, Some("Root schematic to start from"@), seq![], true),
            param_view("project_name"@, ParamKind::Text, Some(project_name_text()), seq![], false),
        ],
    }
}

fn describe_renumber_sheet_pages() -> (tool: ToolDef)
    ensures
        tool@ == renumber_sheet_pages_tool(),
{
    let mut params: Vec<ToolParam> = Vec::new();
    params.push(param("schematic", ParamKind::Text, Some("Root schematic to start from"), no_choices(), true));
    params.push(param("project_name", ParamKind::Text, Some(project_name_description()), no_choices(), false));
    let tool = ToolDef {
        name: "renumber_sheet_pages",
        description: "Walk the whole sheet tree from a root schematic and reassign sequential page numbers (2, 3, 4, ... — page 1 is always the root and is left untouched) in depth-first order. Fixes gaps left by delete_sheet/duplicate_sheet. Only touches files whose page numbers actually changed.",
        params,
    };
    assert(tool@.params =~= renumber_sheet_pages_tool().params);
    tool
}

pub open spec fn import_sheet_pins_tool() -> ToolView {
    ToolView {
        name: "import_sheet_pins"@,
        description: "Scan the child sheet's hierarchical_labels and auto-generate matching pins on the parent sheet block, skipping names that already have a pin. This is the primary, expected way sheet pins get created — mirrors KiCAD's own 'Import Sheet Pins' command rather than pairing every pin to a label by hand. New pins are placed along one edge of the sheet box, stacked below any existing pins."@,
        params: seq![
            param_view("schematic"@, ParamKind::Text, Some("Path to the parent .kicad_sch file"@), seq![], true),
            param_view("sheet_name"@, ParamKind::Text, None, seq![], true),
            param_view("side"@, ParamKind::Text, Some("Which edge to place new pins on; new pins stack down a left/right edge and along a top/bottom one, below the pins already on that edge. Sets each pin's rotation, which is what KiCad reads the edge from. An import that would not fit on the named edge is refused entire and writes nothing, because KiCad clamps a pin placed past a corner back onto the box. Default: 'right'"@), side_names(), false),
        ],
    }
}

fn describe_import_sheet_pins() -> (tool: ToolDef)
    ensures
        tool@ == import_sheet_pins_tool(),
{
    let mut params: Vec<ToolParam> = Vec::new();
    params.push(param("schematic", ParamKind::Text, Some("Path to the parent .kicad_sch file"), no_choices(), true));
    params.push(param("sheet_name", ParamKind::Text, None, no_choices(), true));
    params.push(param("side", ParamKind::Text, Some("Which edge to place new pins on; new pins stack down a left/right edge and along a top/bottom one, below the pins already on that edge. Sets each pin's rotation, which is what KiCad reads the edge from. An import that would not fit on the named edge is refused entire and writes nothing, because KiCad clamps a pin placed past a corner back onto the box. Default: 'right'"), side_choices(), false));
    let tool = ToolDef {
        name: "import_sheet_pins",
        description: "Scan the child sheet's hierarchical_labels and auto-generate matching pins on the parent sheet block, skipping names that already have a pin. This is the primary, expected way sheet pins get created — mirrors KiCAD's own 'Import Sheet Pins' command rather than pairing every pin to a label by hand. New pins are placed along one edge of the sheet box, stacked below any existing pins.",
        params,
    };
    assert(tool@.params =~= import_sheet_pins_tool().params);
    tool
}

pub open spec fn add_sheet_pin_tool() -> ToolView {
    ToolView {
        name: "add_sheet_pin"@,
        description: "Manually add a single pin to an existing sheet block. Prefer import_sheet_pins for the common case; use this when a hierarchical_label hasn't been written yet or a pin needs to exist ahead of the label. Pass 'side' to put the pin on the top or bottom edge; without it the pin is written on the right edge as before."@,
        params: seq![
            param_view("schematic"@, ParamKind::Text, None, seq![], true),
            param_view("sheet_name"@, ParamKind::Text, None, seq![], true),
            param_view("pin_name"@, ParamKind::Text, None, seq![], true),
            param_view("pin_type"@, ParamKind::Text, None, pin_type_names(), true),
            param_view("x"@, ParamKind::Number, None, seq![], true),
            param_view("y"@, ParamKind::Number, None, seq![], true),
            param_view("side"@, ParamKind::Text, Some(side_text()), side_names(), false),
        ],
    }
}

fn describe_add_sheet_pin() -> (tool: ToolDef)
    ensures
        tool@ == add_sheet_pin_tool(),
{
    let mut params: Vec<ToolParam> = Vec::new();
    params.push(param("schematic", ParamKind::Text, None, no_choices(), true));
    params.push(param("sheet_name", ParamKind::Text, None, no_choices(), true));
    params.push(param("pin_name", ParamKind::Text, None, no_choices(), true));
    params.push(param("pin_type", ParamKind::Text, None, pin_type_choices(), true));
    params.push(param("x", ParamKind::Number, None, no_choices(), true));
    params.push(param("y", ParamKind::Number, None, no_choices(), true));
    params.push(param("side", ParamKind::Text, Some(side_description()), side_choices(), false));
    let tool = ToolDef {
        name: "add_sheet_pin",
        description: "Manually add a single pin to an existing sheet block. Prefer import_sheet_pins for the common case; use this when a hierarchical_label hasn't been written yet or a pin needs to exist ahead of the label. Pass 'side' to put the pin on the top or bottom edge; without it the pin is written on the right edge as before.",
        params,
    };
    assert(tool@.params =~= add_sheet_pin_tool().params);
    tool
}

pub open spec fn edit_sheet_pin_tool() -> ToolView {
    ToolView {
        name: "edit_sheet_pin"@,
        description: "Rename a sheet pin, change its electrical type, move it, or move it to a different edge of the sheet box. Provide at least one of: new_name, pin_type, side, or both x+y."@,
        params: seq![
            param_view("schematic"@, ParamKind::Text, None, seq![], true),
            param_view("sheet_name"@, ParamKind::Text, None, seq![], true),
            param_view("pin_name"@, ParamKind::Text, Some("Current pin name to look up"@), seq![], true),
            param_view("new_name"@, ParamKind::Text, None, seq![], false),
            param_view("pin_type"@, ParamKind::Text, None, pin_type_names(), false),
            param_view("x"@, ParamKind::Number, None, seq![], false),
            param_view("y"@, ParamKind::Number, None, seq![], false),
            param_view("side"@, ParamKind::Text, Some(side_text()), side_names(), false),
        ],
    }
}

fn describe_edit_sheet_pin() -> (tool: ToolDef)
    ensures
        tool@ == edit_sheet_pin_tool(),
{
    let mut params: Vec<ToolParam> = Vec::new();
    params.push(param("schematic", ParamKind::Text, None, no_choices(), true));
    params.push(param("sheet_name", ParamKind::Text, None, no_choices(), true));
    params.push(param("pin_name", ParamKind::Text, Some("Current pin name to look up"), no_choices(), true));
    params.push(param("new_name", ParamKind::Text, None, no_choices(), false));
    params.push(param("pin_type", ParamKind::Text, None, pin_type_choices(), false));
    params.push(param("x", ParamKind::Number, None, no_choices(), false));
    params.push(param("y", ParamKind::Number, None, no_choices(), false));
    params.push(param("side", ParamKind::Text, Some(side_description()), side_choices(), false));
    let tool = ToolDef {
        name: "edit_sheet_pin",
        description: "Rename a sheet pin, change its electrical type, move it, or move it to a different edge of the sheet box. Provide at least one of: new_name, pin_type, side, or both x+y.",
        params,
    };
    assert(tool@.params =~= edit_sheet_pin_tool().params);
    tool
}

pub open spec fn delete_sheet_pin_tool() -> ToolView {
    ToolView {
        name: "delete_sheet_pin"@,
        description: "Remove a single pin from a sheet without touching the rest of the sheet."@,
        params: seq![
            param_view("schematic"@, ParamKind::Text, None, seq![], true),
            param_view("sheet_name"@, ParamKind::Text, None, seq![], true),
            param_view("pin_name"@, ParamKind::Text, None, seq![], true),
        ],
    }
}

fn describe_delete_sheet_pin() -> (tool: ToolDef)
    ensures
        tool@ == delete_sheet_pin_tool(),
{
    let mut params: Vec<ToolParam> = Vec::new();
    params.push(param("schematic", ParamKind::Text, None, no_choices(), true));
    params.push(param("sheet_name", ParamKind::Text, None, no_choices(), true));
    params.push(param("pin_name", ParamKind::Text, None, no_choices(), true));
    let tool = ToolDef {
        name: "delete_sheet_pin",
        description: "Remove a single pin from a sheet without touching the rest of the sheet.",
        params,
    };
    assert(tool@.params =~= delete_sheet_pin_tool().params);
    tool
}

pub open spec fn validate_sheet_pins_tool() -> ToolView {
    ToolView {
        name: "validate_sheet_pins"@,
        description: "Read-only. Walk the whole sheet tree from a root schematic and report hierarchical_labels with no matching parent sheet pin, and sheet pins with no matching child hierarchical_label. Does not modify anything — use as a pre-ERC sanity check or to catch drift after manual edits."@,
        params: seq![
            param_view("schematic"@, ParamKind::Text, Some("Root schematic to start from"@), seq![], true),
        ],
    }
}

fn describe_validate_sheet_pins() -> (tool: ToolDef)
    ensures
        tool@ == validate_sheet_pins_tool(),
{
    let mut params: Vec<ToolParam> = Vec::new();
    params.push(param("schematic", ParamKind::Text, Some("Root schematic to start from"), no_choices(), true));
    let tool = ToolDef {
        name: "validate_sheet_pins",
        description: "Read-only. Walk the whole sheet tree from a root schematic and report hierarchical_labels with no matching parent sheet pin, and sheet pins with no matching child hierarchical_label. Does not modify anything — use as a pre-ERC sanity check or to catch drift after manual edits.",
        params,
    };
    assert(tool@.params =~= validate_sheet_pins_tool().params);
    tool
}

/// The tools, in the order in which they are offered.
pub open spec fn catalogue() -> Seq<ToolView> {
    seq![
        add_hierarchical_sheet_tool(),
        edit_sheet_tool(),
        move_sheet_tool(),
        delete_sheet_tool(),
        duplicate_sheet_tool(),
        get_sheet_hierarchy_tool(),
        renumber_sheet_pages_tool(),
        import_sheet_pins_tool(),
        add_sheet_pin_tool(),
        edit_sheet_pin_tool(),
        delete_sheet_pin_tool(),
        validate_sheet_pins_tool(),
    ]
}

/// The tools that the library offers.
pub fn tools() -> (list: Vec<ToolDef>)
    ensures
        list@.map_values(|t: ToolDef| t@) == catalogue(),
{
    let mut list: Vec<ToolDef> = Vec::new();
    list.push(describe_add_hierarchical_sheet());
    list.push(describe_edit_sheet());
    list.push(describe_move_sheet());
    list.push(describe_delete_sheet());
    list.push(describe_duplicate_sheet());
    list.push(describe_get_sheet_hierarchy());
    list.push(describe_renumber_sheet_pages());
    list.push(describe_import_sheet_pins());
    list.push(describe_add_sheet_pin());
    list.push(describe_edit_sheet_pin());
    list.push(describe_delete_sheet_pin());
    list.push(describe_validate_sheet_pins());
    assert(list@.map_values(|t: ToolDef| t@) =~= catalogue());
    list
}

/// No two tools have the same name.
pub proof fn law_tool_names_differ(i: int, j: int)
    requires
        0 <= i < j < catalogue().len(),
    ensures
        catalogue()[i].name != catalogue()[j].name,
{
    reveal_strlit("add_hierarchical_sheet");
    reveal_strlit("edit_sheet");
    reveal_strlit("move_sheet");
    reveal_strlit("delete_sheet");
    reveal_strlit("duplicate_sheet");
    reveal_strlit("get_sheet_hierarchy");
    reveal_strlit("renumber_sheet_pages");
    reveal_strlit("import_sheet_pins");
    reveal_strlit("add_sheet_pin");
    reveal_strlit("edit_sheet_pin");
    reveal_strlit("delete_sheet_pin");
    reveal_strlit("validate_sheet_pins");
    assert("add_hierarchical_sheet"@.len() == 22);
    assert("edit_sheet"@.len() == 10);
    assert("move_sheet"@.len() == 10);
    assert("delete_sheet"@.len() == 12);
    assert("duplicate_sheet"@.len() == 15);
    assert("get_sheet_hierarchy"@.len() == 19);
    assert("renumber_sheet_pages"@.len() == 20);
    assert("import_sheet_pins"@.len() == 17);
    assert("add_sheet_pin"@.len() == 13);
    assert("edit_sheet_pin"@.len() == 14);
    assert("delete_sheet_pin"@.len() == 16);
    assert("validate_sheet_pins"@.len() == 19);
    assert("edit_sheet"@[0] == 'e');
    assert("move_sheet"@[0] == 'm');
    assert("get_sheet_hierarchy"@[0] == 'g');
    assert("validate_sheet_pins"@[0] == 'v');
}

/// The choices that are offered are those that are accepted: the edges of a sheet
/// box, and the electrical types of a pin.
pub proof fn law_offered_choices_are_accepted(name: Seq<char>)
    ensures
        side_names().contains(name) <==> is_side(name),
        pin_type_names().contains(name) <==> is_pin_type(name),
{
    let sides = side_names();
    assert(sides[0] == "right"@ && sides[1] == "left"@ && sides[2] == "top"@ && sides[3]
        == "bottom"@);
    let types = pin_type_names();
    assert(types[0] == "input"@ && types[1] == "output"@ && types[2] == "bidirectional"@
        && types[3] == "tri_state"@ && types[4] == "passive"@);
}

/// Every tool asks for the schematic it works on.
pub proof fn law_every_tool_needs_a_schematic(i: int)
    requires
        0 <= i < catalogue().len(),
    ensures
        catalogue()[i].params[0].name == "schematic"@,
        catalogue()[i].params[0].required,
        catalogue()[i].params[0].kind == ParamKind::Text,
{
}

/// The tool takes the arguments of these names, in this order, and needs the first
/// `needed` of them.
pub open spec fn takes(tool: ToolView, names: Seq<Seq<char>>, needed: int) -> bool {
    &&& tool.params.len() == names.len()
    &&& forall|k: int|
        0 <= k < names.len() ==> (#[trigger] tool.params[k]).name == names[k]
            && tool.params[k].required == (k < needed)
}

/// The tools, the arguments that each takes, and those that it needs.
pub proof fn law_arguments_of_each_tool()
    ensures
        catalogue().len() == 12,
        catalogue()[0].name == "add_hierarchical_sheet"@ && takes(
            catalogue()[0],
            seq!["schematic"@, "sheet_file"@, "sheet_name"@, "x"@, "y"@, "width"@, "height"@, "project_name"@],
            2,
        ),
        catalogue()[1].name == "edit_sheet"@ && takes(
            catalogue()[1],
            seq!["schematic"@, "sheet_name"@, "new_name"@, "new_file"@, "x"@, "y"@, "width"@, "height"@, "project_name"@],
            2,
        ),
        catalogue()[2].name == "move_sheet"@ && takes(
            catalogue()[2],
            seq!["schematic"@, "sheet_name"@, "x"@, "y"@],
            4,
        ),
        catalogue()[3].name == "delete_sheet"@ && takes(
            catalogue()[3],
            seq!["schematic"@, "sheet_name"@],
            2,
        ),
        catalogue()[4].name == "duplicate_sheet"@ && takes(
            catalogue()[4],
            seq!["schematic"@, "source_sheet_name"@, "new_sheet_name"@, "new_file"@, "project_name"@],
            4,
        ),
        catalogue()[5].name == "get_sheet_hierarchy"@ && takes(
            catalogue()[5],
            seq!["schematic"@, "project_name"@],
            1,
        ),
        catalogue()[6].name == "renumber_sheet_pages"@ && takes(
            catalogue()[6],
            seq!["schematic"@, "project_name"@],
            1,
        ),
        catalogue()[7].name == "import_sheet_pins"@ && takes(
            catalogue()[7],
            seq!["schematic"@, "sheet_name"@, "side"@],
            2,
        ),
        catalogue()[8].name == "add_sheet_pin"@ && takes(
            catalogue()[8],
            seq!["schematic"@, "sheet_name"@, "pin_name"@, "pin_type"@, "x"@, "y"@, "side"@],
            6,
        ),
        catalogue()[9].name == "edit_sheet_pin"@ && takes(
            catalogue()[9],
            seq!["schematic"@, "sheet_name"@, "pin_name"@, "new_name"@, "pin_type"@, "x"@, "y"@, "side"@],
            3,
        ),
        catalogue()[10].name == "delete_sheet_pin"@ && takes(
            catalogue()[10],
            seq!["schematic"@, "sheet_name"@, "pin_name"@],
            3,
        ),
        catalogue()[11].name == "validate_sheet_pins"@ && takes(
            catalogue()[11],
            seq!["schematic"@],
            1,
        ),
{
}

/// A length is given as a number and anything else as text. The edges are offered
/// for a side, the types for the type of a pin, and no choices for anything else.
pub proof fn law_arguments_are_of_their_kind(i: int, k: int)
    requires
        0 <= i < catalogue().len(),
        0 <= k < catalogue()[i].params.len(),
    ensures
        ({
            let param = catalogue()[i].params[k];
            let is_length = param.name == "x"@ || param.name == "y"@ || param.name == "width"@
                || param.name == "height"@;
            &&& param.kind == (if is_length {
                ParamKind::Number
            } else {
                ParamKind::Text
            })
            &&& param.choices == (if param.name == "side"@ {
                seq!["right"@, "left"@, "top"@, "bottom"@]
            } else if param.name == "pin_type"@ {
                seq!["input"@, "output"@, "bidirectional"@, "tri_state"@, "passive"@]
            } else {
                seq![]
            })
        }),
{
    reveal_strlit("height");
    reveal_strlit("new_file");
    reveal_strlit("new_name");
    reveal_strlit("new_sheet_name");
    reveal_strlit("pin_name");
    reveal_strlit("pin_type");
    reveal_strlit("project_name");
    reveal_strlit("schematic");
    reveal_strlit("sheet_file");
    reveal_strlit("sheet_name");
    reveal_strlit("side");
    reveal_strlit("source_sheet_name");
    reveal_strlit("width");
    reveal_strlit("x");
    reveal_strlit("y");
    assert("height"@.len() == 6);
    assert("new_file"@.len() == 8);
    assert("new_name"@.len() == 8);
    assert("new_sheet_name"@.len() == 14);
    assert("pin_name"@.len() == 8);
    assert("pin_type"@.len() == 8);
    assert("project_name"@.len() == 12);
    assert("schematic"@.len() == 9);
    assert("sheet_file"@.len() == 10);
    assert("sheet_name"@.len() == 10);
    assert("side"@.len() == 4);
    assert("source_sheet_name"@.len() == 17);
    assert("width"@.len() == 5);
    assert("x"@.len() == 1);
    assert("y"@.len() == 1);
    assert("pin_type"@[4] == 't');
    assert("pin_name"@[4] == 'n');
    assert("new_name"@[0] == 'n');
    assert("new_file"@[0] == 'n');
    assert("pin_type"@[0] == 'p');
}

/// What the catalogue says of the place and the size that a new sheet gets by
/// default is what it gets.
pub proof fn law_described_defaults_are_the_defaults()
    ensures
        ({
            let params = catalogue()[0].params;
            &&& params[3].description == Some(
                "Top-left X in mm. Default: "@ + fixed_text(DEFAULT_POSITION as int),
            )
            &&& params[4].description == Some(
                "Top-left Y in mm. Default: "@ + fixed_text(DEFAULT_POSITION as int),
            )
            &&& params[5].description == Some(
                "Sheet box width in mm. Default: "@ + fixed_text(DEFAULT_WIDTH as int),
            )
            &&& params[6].description == Some(
                "Sheet box height in mm. Default: "@ + fixed_text(DEFAULT_HEIGHT as int),
            )
        }),
{
    reveal_strlit("Top-left X in mm. Default: ");
    reveal_strlit("Top-left X in mm. Default: 50");
    reveal_strlit("Top-left Y in mm. Default: ");
    reveal_strlit("Top-left Y in mm. Default: 50");
    reveal_strlit("Sheet box width in mm. Default: ");
    reveal_strlit("Sheet box width in mm. Default: 80");
    reveal_strlit("Sheet box height in mm. Default: ");
    reveal_strlit("Sheet box height in mm. Default: 50");
    reveal_with_fuel(decimal, 2);
    assert(decimal(50) =~= seq!['5', '0']);
    assert(decimal(80) =~= seq!['8', '0']);
    assert(fixed_text(50_000_000_000_000) =~= seq!['5', '0']);
    assert(fixed_text(80_000_000_000_000) =~= seq!['8', '0']);
    assert("Top-left X in mm. Default: 50"@ =~= "Top-left X in mm. Default: "@ + seq!['5', '0']);
    assert("Top-left Y in mm. Default: 50"@ =~= "Top-left Y in mm. Default: "@ + seq!['5', '0']);
    assert("Sheet box width in mm. Default: 80"@ =~= "Sheet box width in mm. Default: "@ + seq![
        '8',
        '0',
    ]);
    assert("Sheet box height in mm. Default: 50"@ =~= "Sheet box height in mm. Default: "@ + seq![
        '5',
        '0',
    ]);
}

} // verus!
