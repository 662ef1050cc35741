//! Sheets as they stand in one schematic: their page numbers, how they are
//! described, and how they are edited, moved and deleted.

use crate::model::{
    copy_text, find_sheet, lemma_sheet_named, pin_views, sheet_named, sheet_views, text_of,
    PinView, Sheet, SheetPin, SheetView,
};
use crate::numeral::{decimal, law_page_numeral_reads_back, parse_u32, u32_of};
use crate::pins::field_if;
use crate::refusal::{sheet_not_found, sheet_not_found_text, Refusal, RefusalView};
use crate::text::same_text;
use vstd::prelude::*;

verus! {

/// The page number of a sheet, where it has one that is a number.
pub open spec fn page_number(sheet: SheetView) -> Option<u32> {
    match sheet.page {
        Some(page) => u32_of(page),
        None => None,
    }
}

/// The highest page number in use. Page 1 is always that of the root.
pub open spec fn max_page(sheets: Seq<SheetView>) -> u32
    decreases sheets.len(),
{
    if sheets.len() == 0 {
        1
    } else {
        let before = max_page(sheets.drop_last());
        match page_number(sheets.last()) {
            Some(n) => if n > before {
                n
            } else {
                before
            },
            None => before,
        }
    }
}

/// The highest page number in use.
pub fn highest_page(sheets: &Vec<Sheet>) -> (page: u32)
    ensures
        page == max_page(sheet_views(sheets@)),
{
    let ghost all = sheet_views(sheets@);
    let mut max: u32 = 1;
    let mut i: usize = 0;
    assert(all.take(0).len() == 0);
    while i < sheets.len()
        invariant
            i <= sheets@.len(),
            all == sheet_views(sheets@),
            max == max_page(all.take(i as int)),
        decreases sheets@.len() - i,
    {
        assert(all.take(i + 1).drop_last() =~= all.take(i as int));
        assert(all.take(i + 1).last() == sheets@[i as int]@);
        if let Some(page) = &sheets[i].page {
            if let Some(n) = parse_u32(page.as_str()) {
                if n > max {
                    max = n;
                }
            }
        }
        i += 1;
    }
    assert(all.take(i as int) =~= all);
    max
}

/// The page number for the next sheet: one more than the highest in use.
pub fn next_free_page(sheets: &Vec<Sheet>) -> (page: u32)
    requires
        max_page(sheet_views(sheets@)) < u32::MAX,
    ensures
        page == max_page(sheet_views(sheets@)) + 1,
{
    highest_page(sheets) + 1
}

proof fn lemma_max_page(sheets: Seq<SheetView>)
    ensures
        max_page(sheets) >= 1,
        forall|i: int|
            0 <= i < sheets.len() ==> (page_number(#[trigger] sheets[i]) matches Some(n) ==> n
                <= max_page(sheets)),
    decreases sheets.len(),
{
    if sheets.len() > 0 {
        let shorter = sheets.drop_last();
        lemma_max_page(shorter);
        assert forall|i: int| 0 <= i < sheets.len() implies (page_number(
            #[trigger] sheets[i],
        ) matches Some(n) ==> n <= max_page(sheets)) by {
            if i < sheets.len() - 1 {
                assert(shorter[i] == sheets[i]);
            }
        }
    }
}

/// The page number for the next sheet is that of no sheet in the schematic, and
/// not that of the root.
pub proof fn law_next_page_is_free(sheets: Seq<SheetView>)
    requires
        max_page(sheets) < u32::MAX,
    ensures
        ({
            let page = (max_page(sheets) + 1) as u32;
            &&& page >= 2
            &&& forall|i: int|
                0 <= i < sheets.len() ==> page_number(#[trigger] sheets[i]) != Some(page)
                    && sheets[i].page != Some(decimal(page as nat))
        }),
{
    lemma_max_page(sheets);
    let page = (max_page(sheets) + 1) as u32;
    law_page_numeral_reads_back(page);
}

/// A pin as the description of a sheet lists it.
#[derive(Debug)]
pub struct PinSummary {
    pub name: String,
    pub pin_type: String,
    pub x: i128,
    pub y: i128,
}

/// A [`PinSummary`] by its values.
#[verifier::ext_equal]
pub struct PinSummaryView {
    pub name: Seq<char>,
    pub pin_type: Seq<char>,
    pub x: int,
    pub y: int,
}

impl View for PinSummary {
    type V = PinSummaryView;

    open spec fn view(&self) -> PinSummaryView {
        PinSummaryView {
            name: self.name@,
            pin_type: self.pin_type@,
            x: self.x as int,
            y: self.y as int,
        }
    }
}

/// A sheet as a response describes it.
#[derive(Debug)]
pub struct SheetSummary {
    pub name: String,
    pub file: String,
    pub uuid: String,
    pub x: i64,
    pub y: i64,
    pub width: i64,
    pub height: i64,
    pub page: Option<String>,
    pub pins: Vec<PinSummary>,
}

/// A [`SheetSummary`] by its values.
#[verifier::ext_equal]
pub struct SummaryView {
    pub name: Seq<char>,
    pub file: Seq<char>,
    pub uuid: Seq<char>,
    pub x: i64,
    pub y: i64,
    pub width: i64,
    pub height: i64,
    pub page: Option<Seq<char>>,
    pub pins: Seq<PinSummaryView>,
}

pub open spec fn pin_summary_views(pins: Seq<PinSummary>) -> Seq<PinSummaryView> {
    pins.map_values(|p: PinSummary| p@)
}

impl View for SheetSummary {
    type V = SummaryView;

    open spec fn view(&self) -> SummaryView {
        SummaryView {
            name: self.name@,
            file: self.file@,
            uuid: self.uuid@,
            x: self.x,
            y: self.y,
            width: self.width,
            height: self.height,
            page: text_of(self.page),
            pins: pin_summary_views(self.pins@),
        }
    }
}

/// What a description says of a pin: all but its rotation.
pub open spec fn pin_summary(pin: PinView) -> PinSummaryView {
    PinSummaryView { name: pin.name, pin_type: pin.pin_type, x: pin.x, y: pin.y }
}

/// What a description says of a sheet.
pub open spec fn summary_of(sheet: SheetView) -> SummaryView {
    SummaryView {
        name: sheet.name,
        file: sheet.file,
        uuid: sheet.uuid,
        x: sheet.x,
        y: sheet.y,
        width: sheet.width,
        height: sheet.height,
        page: sheet.page,
        pins: sheet.pins.map_values(|p: PinView| pin_summary(p)),
    }
}

fn describe_pins(pins: &Vec<SheetPin>) -> (summaries: Vec<PinSummary>)
    ensures
        pin_summary_views(summaries@) == pin_views(pins@).map_values(|p: PinView| pin_summary(p)),
{
    let ghost all = pin_views(pins@).map_values(|p: PinView| pin_summary(p));
    let mut summaries: Vec<PinSummary> = Vec::new();
    let mut i: usize = 0;
    assert(pin_summary_views(summaries@) =~= all.take(0));
    while i < pins.len()
        invariant
            i <= pins@.len(),
            all == pin_views(pins@).map_values(|p: PinView| pin_summary(p)),
            pin_summary_views(summaries@) == all.take(i as int),
        decreases pins@.len() - i,
    {
        let ghost before = summaries@;
        let summary = PinSummary {
            name: pins[i].name.clone(),
            pin_type: pins[i].pin_type.clone(),
            x: pins[i].x,
            y: pins[i].y,
        };
        assert(all[i as int] == summary@);
        summaries.push(summary);
        assert(pin_summary_views(summaries@) =~= pin_summary_views(before).push(all[i as int]));
        assert(all.take(i + 1) =~= all.take(i as int).push(all[i as int]));
        i += 1;
    }
    assert(all.take(i as int) =~= all);
    summaries
}

/// Describe a sheet.
pub fn describe_sheet(sheet: &Sheet) -> (summary: SheetSummary)
    ensures
        summary@ == summary_of(sheet@),
{
    SheetSummary {
        name: sheet.name.clone(),
        file: sheet.file.clone(),
        uuid: sheet.uuid.clone(),
        x: sheet.x,
        y: sheet.y,
        width: sheet.width,
        height: sheet.height,
        page: copy_text(&sheet.page),
        pins: describe_pins(&sheet.pins),
    }
}

/// Describe the sheet of that name in the schematic that was just saved. Where it
/// is not there, the failure is reported.
pub fn read_back_sheet(saved: &Vec<Sheet>, name: &str, failure: &str) -> (summary: Result<
    SheetSummary,
    String,
>)
    ensures
        match sheet_named(sheet_views(saved@), name@, 0) {
            Some(i) => summary matches Ok(found) && found@ == summary_of(sheet_views(saved@)[i]),
            None => summary matches Err(e) && e@ == failure@,
        },
{
    match find_sheet(saved, name) {
        Some(i) => {
            assert(sheet_views(saved@)[i as int] == saved@[i as int]@);
            Ok(describe_sheet(&saved[i]))
        },
        None => Err(failure.to_owned()),
    }
}

/// A field of a sheet that an edit may set.
#[derive(Clone, Copy, Debug, PartialEq, Eq, Structural)]
pub enum SheetField {
    Name,
    File,
    Position,
    Size,
}

impl SheetField {
    /// The name under which the field is reported.
    pub fn label(self) -> (label: &'static str)
        ensures
            label@ == (match self {
                SheetField::Name => "name"@,
                SheetField::File => "file"@,
                SheetField::Position => "position"@,
                SheetField::Size => "size"@,
            }),
    {
        match self {
            SheetField::Name => "name",
            SheetField::File => "file",
            SheetField::Position => "position",
            SheetField::Size => "size",
        }
    }
}

/// A request to change a sheet. A position counts where both of its coordinates
/// are given, a size where width and height are.
#[derive(Debug)]
pub struct EditSheetRequest {
    pub sheet_name: String,
    pub new_name: Option<String>,
    pub new_file: Option<String>,
    pub x: Option<i64>,
    pub y: Option<i64>,
    pub width: Option<i64>,
    pub height: Option<i64>,
}

impl EditSheetRequest {
    pub open spec fn sets_position(&self) -> bool {
        self.x is Some && self.y is Some
    }

    pub open spec fn sets_size(&self) -> bool {
        self.width is Some && self.height is Some
    }
}

/// The sheet after the edit.
pub open spec fn edited_sheet(sheet: SheetView, request: EditSheetRequest) -> SheetView {
    SheetView {
        name: match request.new_name {
            Some(name) => name@,
            None => sheet.name,
        },
        file: match request.new_file {
            Some(file) => file@,
            None => sheet.file,
        },
        x: if request.sets_position() {
            request.x->0
        } else {
            sheet.x
        },
        y: if request.sets_position() {
            request.y->0
        } else {
            sheet.y
        },
        width: if request.sets_size() {
            request.width->0
        } else {
            sheet.width
        },
        height: if request.sets_size() {
            request.height->0
        } else {
            sheet.height
        },
        ..sheet
    }
}

/// The fields that the caller asked to set.
pub open spec fn requested_sheet_fields(request: EditSheetRequest) -> Seq<SheetField> {
    field_if(request.new_name is Some, SheetField::Name) + field_if(
        request.new_file is Some,
        SheetField::File,
    ) + field_if(request.sets_position(), SheetField::Position) + field_if(
        request.sets_size(),
        SheetField::Size,
    )
}

/// The fields in which the edited sheet differs.
pub open spec fn changed_sheet_fields(
    sheet: SheetView,
    request: EditSheetRequest,
) -> Seq<SheetField> {
    let after = edited_sheet(sheet, request);
    field_if(after.name != sheet.name, SheetField::Name) + field_if(
        after.file != sheet.file,
        SheetField::File,
    ) + field_if(after.x != sheet.x || after.y != sheet.y, SheetField::Position) + field_if(
        after.width != sheet.width || after.height != sheet.height,
        SheetField::Size,
    )
}

/// Why a request to edit a sheet is refused, if it is.
pub open spec fn edit_sheet_refusal(
    sheets: Seq<SheetView>,
    request: EditSheetRequest,
) -> Option<RefusalView> {
    if sheet_named(sheets, request.sheet_name@, 0) is None {
        Some(RefusalView::Message(sheet_not_found_text(request.sheet_name@)))
    } else if requested_sheet_fields(request).len() == 0 {
        Some(
            RefusalView::Message(
                "No fields to change — provide at least one of: new_name, new_file, x+y, width+height"@,
            ),
        )
    } else {
        None
    }
}

/// The sheets after one was edited.
pub open spec fn with_edited_sheet(
    sheets: Seq<SheetView>,
    request: EditSheetRequest,
) -> Seq<SheetView> {
    let i = sheet_named(sheets, request.sheet_name@, 0)->0;
    sheets.update(i, edited_sheet(sheets[i], request))
}

/// What an accepted edit of a sheet did. Where no field changed, nothing need be
/// written.
#[derive(Debug)]
pub struct SheetEdit {
    pub sheet_uuid: String,
    pub requested: Vec<SheetField>,
    pub changed: Vec<SheetField>,
    pub sheet: SheetSummary,
}

/// Change one sheet. A refused request changes nothing.
pub fn edit_sheet(sheets: &mut Vec<Sheet>, request: &EditSheetRequest) -> (edit: Result<
    SheetEdit,
    Refusal,
>)
    ensures
        match edit {
            Ok(done) => {
                let before = sheet_views(old(sheets)@);
                let sheet = before[sheet_named(before, request.sheet_name@, 0)->0];
                &&& edit_sheet_refusal(before, *request) is None
                &&& sheet_views(final(sheets)@) == with_edited_sheet(before, *request)
                &&& done.sheet_uuid@ == sheet.uuid
                &&& done.requested@ == requested_sheet_fields(*request)
                &&& done.changed@ == changed_sheet_fields(sheet, *request)
                &&& done.sheet@ == summary_of(edited_sheet(sheet, *request))
            },
            Err(refusal) => {
                &&& edit_sheet_refusal(sheet_views(old(sheets)@), *request) == Some(refusal@)
                &&& final(sheets)@ == old(sheets)@
            },
        },
{
    let ghost before = sheet_views(sheets@);
    let i = match find_sheet(sheets, request.sheet_name.as_str()) {
        Some(i) => i,
        None => {
            return Err(sheet_not_found(request.sheet_name.as_str()));
        },
    };
    let ghost old_sheet = before[i as int];
    assert(old_sheet == sheets@[i as int]@);
    let mut edited = sheets[i].clone();
    let mut requested: Vec<SheetField> = Vec::new();
    let mut changed: Vec<SheetField> = Vec::new();
    if let Some(name) = &request.new_name {
        requested.push(SheetField::Name);
        if !same_text(edited.name.as_str(), name.as_str()) {
            edited.name = name.clone();
            changed.push(SheetField::Name);
        }
    }
    if let Some(file) = &request.new_file {
        requested.push(SheetField::File);
        if !same_text(edited.file.as_str(), file.as_str()) {
            edited.file = file.clone();
            changed.push(SheetField::File);
        }
    }
    if let (Some(x), Some(y)) = (request.x, request.y) {
        requested.push(SheetField::Position);
        if edited.x != x || edited.y != y {
            edited.x = x;
            edited.y = y;
            changed.push(SheetField::Position);
        }
    }
    if let (Some(width), Some(height)) = (request.width, request.height) {
        requested.push(SheetField::Size);
        if edited.width != width || edited.height != height {
            edited.width = width;
            edited.height = height;
            changed.push(SheetField::Size);
        }
    }
    assert(edited@ == edited_sheet(old_sheet, *request));
    assert(requested@ =~= requested_sheet_fields(*request));
    assert(changed@ =~= changed_sheet_fields(old_sheet, *request));
    if requested.len() == 0 {
        return Err(
            Refusal::Message(
                "No fields to change — provide at least one of: new_name, new_file, x+y, width+height".to_owned(),
            ),
        );
    }
    let sheet = describe_sheet(&edited);
    let sheet_uuid = edited.uuid.clone();
    sheets[i] = edited;
    assert(sheet_views(sheets@) =~= with_edited_sheet(before, *request));
    Ok(SheetEdit { sheet_uuid, requested, changed, sheet })
}

/// The sheets after one was moved.
pub open spec fn with_moved_sheet(
    sheets: Seq<SheetView>,
    name: Seq<char>,
    x: i64,
    y: i64,
) -> Seq<SheetView> {
    let i = sheet_named(sheets, name, 0)->0;
    sheets.update(i, SheetView { x, y, ..sheets[i] })
}

/// What an accepted move did. A sheet that was there already has not changed, and
/// nothing need be written.
#[derive(Debug)]
pub struct SheetMove {
    pub sheet_uuid: String,
    pub changed: bool,
}

/// Put a sheet at another position, and touch nothing else. A refused request
/// changes nothing.
pub fn move_sheet(sheets: &mut Vec<Sheet>, name: &str, x: i64, y: i64) -> (moved: Result<
    SheetMove,
    Refusal,
>)
    ensures
        ({
            let before = sheet_views(old(sheets)@);
            match sheet_named(before, name@, 0) {
                Some(i) => {
                    &&& moved is Ok
                    &&& moved->Ok_0.sheet_uuid@ == before[i].uuid
                    &&& moved->Ok_0.changed == (before[i].x != x || before[i].y != y)
                    &&& sheet_views(final(sheets)@) == with_moved_sheet(before, name@, x, y)
                },
                None => {
                    &&& moved matches Err(refusal) && refusal@ == RefusalView::Message(
                        sheet_not_found_text(name@),
                    )
                    &&& final(sheets)@ == old(sheets)@
                },
            }
        }),
{
    let ghost before = sheet_views(sheets@);
    let i = match find_sheet(sheets, name) {
        Some(i) => i,
        None => {
            return Err(sheet_not_found(name));
        },
    };
    assert(before[i as int] == sheets@[i as int]@);
    let sheet_uuid = sheets[i].uuid.clone();
    let changed = sheets[i].x != x || sheets[i].y != y;
    if changed {
        let sheet = &mut sheets[i];
        sheet.x = x;
        sheet.y = y;
    }
    assert(sheet_views(sheets@) =~= with_moved_sheet(before, name@, x, y));
    Ok(SheetMove { sheet_uuid, changed })
}

/// The note that goes with the report of a deletion.
pub fn deletion_note() -> (note: &'static str)
    ensures
        note@
            == "The child schematic file was not deleted. Remaining sheets' page numbers may now have a gap — call renumber_sheet_pages if needed."@,
{
    "The child schematic file was not deleted. Remaining sheets' page numbers may now have a gap — call renumber_sheet_pages if needed."
}

/// A sheet that is to be deleted, and the child file that is kept.
#[derive(Debug)]
pub struct SheetDeletion {
    pub sheet_uuid: String,
    pub child_file: String,
}

/// The sheets after one was deleted.
pub open spec fn without_sheet(sheets: Seq<SheetView>, name: Seq<char>) -> Seq<SheetView> {
    sheets.remove(sheet_named(sheets, name, 0)->0)
}

/// Remove the reference to a sheet from its schematic. The child file is not
/// touched. A refused request changes nothing.
pub fn delete_sheet(sheets: &mut Vec<Sheet>, name: &str) -> (deletion: Result<
    SheetDeletion,
    Refusal,
>)
    ensures
        ({
            let before = sheet_views(old(sheets)@);
            match sheet_named(before, name@, 0) {
                Some(i) => {
                    &&& deletion is Ok
                    &&& deletion->Ok_0.sheet_uuid@ == before[i].uuid
                    &&& deletion->Ok_0.child_file@ == before[i].file
                    &&& sheet_views(final(sheets)@) == without_sheet(before, name@)
                },
                None => {
                    &&& deletion matches Err(refusal) && refusal@ == RefusalView::Message(
                        sheet_not_found_text(name@),
                    )
                    &&& final(sheets)@ == old(sheets)@
                },
            }
        }),
{
    let ghost before = sheet_views(sheets@);
    let i = match find_sheet(sheets, name) {
        Some(i) => i,
        None => {
            return Err(sheet_not_found(name));
        },
    };
    assert(before[i as int] == sheets@[i as int]@);
    let removed = sheets.remove(i);
    assert(sheet_views(sheets@) =~= without_sheet(before, name@));
    Ok(SheetDeletion { sheet_uuid: removed.uuid, child_file: removed.file })
}

/// Where no field is reported as changed, the edit leaves the sheet as it is.
pub proof fn law_no_changed_field_means_same_sheet(sheet: SheetView, request: EditSheetRequest)
    requires
        changed_sheet_fields(sheet, request).len() == 0,
    ensures
        edited_sheet(sheet, request) == sheet,
{
}

/// Making the same edit a second time leaves the sheet as the first left it, and
/// reports no change.
pub proof fn law_sheet_edit_is_idempotent(sheet: SheetView, request: EditSheetRequest)
    ensures
        edited_sheet(edited_sheet(sheet, request), request) == edited_sheet(sheet, request),
        changed_sheet_fields(edited_sheet(sheet, request), request).len() == 0,
{
}

/// Only fields that were asked for are reported as changed.
pub proof fn law_changed_fields_were_requested(sheet: SheetView, request: EditSheetRequest)
    ensures
        forall|i: int|
            0 <= i < changed_sheet_fields(sheet, request).len() ==> requested_sheet_fields(
                request,
            ).contains(#[trigger] changed_sheet_fields(sheet, request)[i]),
{
    let asked = requested_sheet_fields(request);
    let a = field_if(request.new_name is Some, SheetField::Name);
    let b = field_if(request.new_file is Some, SheetField::File);
    let c = field_if(request.sets_position(), SheetField::Position);
    let d = field_if(request.sets_size(), SheetField::Size);
    if request.new_name is Some {
        assert(asked[0] == SheetField::Name);
    }
    if request.new_file is Some {
        assert(asked[a.len() as int] == SheetField::File);
    }
    if request.sets_position() {
        assert(asked[(a + b).len() as int] == SheetField::Position);
    }
    if request.sets_size() {
        assert(asked[(a + b + c).len() as int] == SheetField::Size);
    }
}

/// An edit or a move leaves every other sheet as it was, and leaves the UUID, the
/// page and the pins of the sheet itself.
pub proof fn law_edit_touches_one_sheet(
    sheets: Seq<SheetView>,
    request: EditSheetRequest,
    x: i64,
    y: i64,
    j: int,
)
    requires
        sheet_named(sheets, request.sheet_name@, 0) is Some,
        0 <= j < sheets.len(),
    ensures
        ({
            let i = sheet_named(sheets, request.sheet_name@, 0)->0;
            let edited = with_edited_sheet(sheets, request);
            let moved = with_moved_sheet(sheets, request.sheet_name@, x, y);
            &&& edited.len() == sheets.len() && moved.len() == sheets.len()
            &&& j != i ==> edited[j] == sheets[j] && moved[j] == sheets[j]
            &&& edited[j].uuid == sheets[j].uuid && edited[j].page == sheets[j].page
                && edited[j].pins == sheets[j].pins
            &&& moved[i] == (SheetView { x, y, ..sheets[i] })
        }),
{
    lemma_sheet_named(sheets, request.sheet_name@, 0);
}

/// Where the sheet names differ from each other, a deleted sheet is no longer
/// found, and every other sheet still is.
pub proof fn law_deleted_sheet_is_gone(sheets: Seq<SheetView>, name: Seq<char>, other: Seq<char>)
    requires
        sheet_named(sheets, name, 0) is Some,
        forall|a: int, b: int|
            0 <= a < b < sheets.len() ==> (#[trigger] sheets[a]).name != (#[trigger] sheets[b]).name,
    ensures
        sheet_named(without_sheet(sheets, name), name, 0) is None,
        other != name ==> (sheet_named(without_sheet(sheets, name), other, 0) is Some
            <==> sheet_named(sheets, other, 0) is Some),
{
    lemma_sheet_named(sheets, name, 0);
    lemma_sheet_named(sheets, other, 0);
    let k = sheet_named(sheets, name, 0)->0;
    let rest = without_sheet(sheets, name);
    lemma_sheet_named(rest, name, 0);
    lemma_sheet_named(rest, other, 0);
    assert forall|j: int| 0 <= j < rest.len() implies (#[trigger] rest[j]) == sheets[if j < k {
        j
    } else {
        j + 1
    }] by {}
    if let Some(j) = sheet_named(rest, name, 0) {
        let m = if j < k {
            j
        } else {
            j + 1
        };
        assert(sheets[m].name == name);
        assert(sheets[k].name == name);
    }
    if other != name {
        if let Some(m) = sheet_named(sheets, other, 0) {
            let j = if m < k {
                m
            } else {
                m - 1
            };
            assert(rest[j] == sheets[m]);
        }
        if let Some(j) = sheet_named(rest, other, 0) {
            let m = if j < k {
                j
            } else {
                j + 1
            };
            assert(sheets[m].name == other);
        }
    }
}

} // verus!
