//! Adding, editing and deleting the pins of a sheet.

use crate::geometry::{
    box_of, edge_refusal, ensure_pin_is_on_sheet_edge, invalid_pin_type_text, is_pin_type,
    not_an_edge_text, rotation_side, sheet_pin_rotation_for, sheet_pin_side_for_rotation,
    side_rotation, validate_pin_type, SheetBox,
};
use crate::model::{
    find_pin, find_sheet, lemma_pin_named, lemma_sheet_named, pin_named, pin_views, sheet_named,
    sheet_views, text_of, PinView, Sheet, SheetPin, SheetView,
};
use crate::refusal::{
    pin_not_found, pin_not_found_text, sheet_not_found, sheet_not_found_text, Refusal,
    RefusalView,
};
use crate::text::same_text;
use vstd::prelude::*;

verus! {

/// A sheet with other pins.
pub open spec fn with_pins(sheet: SheetView, pins: Seq<PinView>) -> SheetView {
    SheetView { pins, ..sheet }
}

/// The refusal of a `side` argument that names no edge.
pub open spec fn side_refusal(side: Seq<char>) -> RefusalView {
    RefusalView::InvalidArgument { argument: "side"@, reason: not_an_edge_text(side) }
}

/// A request to add one pin to a sheet.
#[derive(Debug)]
pub struct AddPinRequest {
    pub sheet_name: String,
    pub pin_name: String,
    pub pin_type: String,
    pub x: i128,
    pub y: i128,
    pub side: Option<String>,
}

impl AddPinRequest {
    /// The edge that the new pin is put on: the right one where none is named.
    pub open spec fn edge(&self) -> Seq<char> {
        match self.side {
            Some(side) => side@,
            None => "right"@,
        }
    }

    /// The pin that the request describes.
    pub open spec fn pin(&self) -> PinView {
        PinView {
            name: self.pin_name@,
            pin_type: self.pin_type@,
            x: self.x as int,
            y: self.y as int,
            rotation: side_rotation(self.edge()),
        }
    }
}

/// `Sheet '<sheet>' already has a pin named '<pin>'`.
pub open spec fn pin_exists_text(sheet: Seq<char>, pin: Seq<char>) -> Seq<char> {
    "Sheet '"@ + sheet + "' already has a pin named '"@ + pin + "'"@
}

/// Why a request to add a pin is refused, if it is.
pub open spec fn add_pin_refusal(
    sheets: Seq<SheetView>,
    request: AddPinRequest,
) -> Option<RefusalView> {
    if !is_pin_type(request.pin_type@) {
        Some(RefusalView::Message(invalid_pin_type_text(request.pin_type@)))
    } else if side_rotation(request.edge()) is None {
        Some(side_refusal(request.edge()))
    } else {
        match sheet_named(sheets, request.sheet_name@, 0) {
            None => Some(RefusalView::Message(sheet_not_found_text(request.sheet_name@))),
            Some(i) => if pin_named(sheets[i].pins, request.pin_name@, 0) is Some {
                Some(
                    RefusalView::Message(
                        pin_exists_text(request.sheet_name@, request.pin_name@),
                    ),
                )
            } else if request.side is Some {
                edge_refusal(
                    box_of(sheets[i]),
                    request.sheet_name@,
                    request.edge(),
                    request.x as int,
                    request.y as int,
                )
            } else {
                None
            },
        }
    }
}

/// The sheets after the pin was added.
pub open spec fn with_added_pin(
    sheets: Seq<SheetView>,
    request: AddPinRequest,
) -> Seq<SheetView> {
    let i = sheet_named(sheets, request.sheet_name@, 0)->0;
    sheets.update(i, with_pins(sheets[i], sheets[i].pins.push(request.pin())))
}

/// Add one pin to a sheet. The position is held to the edge only where the
/// request names one. Gives the UUID of the sheet; a refused request changes
/// nothing.
pub fn add_sheet_pin(sheets: &mut Vec<Sheet>, request: &AddPinRequest) -> (uuid: Result<
    String,
    Refusal,
>)
    ensures
        match uuid {
            Ok(id) => {
                &&& add_pin_refusal(sheet_views(old(sheets)@), *request) is None
                &&& sheet_views(final(sheets)@) == with_added_pin(
                    sheet_views(old(sheets)@),
                    *request,
                )
                &&& id@ == sheet_views(old(sheets)@)[sheet_named(
                    sheet_views(old(sheets)@),
                    request.sheet_name@,
                    0,
                )->0].uuid
            },
            Err(refusal) => {
                &&& add_pin_refusal(sheet_views(old(sheets)@), *request) == Some(refusal@)
                &&& final(sheets)@ == old(sheets)@
            },
        },
{
    let ghost before = sheet_views(sheets@);
    if let Err(refusal) = validate_pin_type(request.pin_type.as_str()) {
        return Err(refusal);
    }
    let side: &str = match &request.side {
        Some(side) => side.as_str(),
        None => "right",
    };
    let rotation = match sheet_pin_rotation_for(side) {
        Ok(rotation) => rotation,
        Err(refusal) => {
            return Err(refusal);
        },
    };
    let i = match find_sheet(sheets, request.sheet_name.as_str()) {
        Some(i) => i,
        None => {
            return Err(sheet_not_found(request.sheet_name.as_str()));
        },
    };
    assert(before[i as int] == sheets@[i as int]@);
    if find_pin(&sheets[i].pins, request.pin_name.as_str()).is_some() {
        let mut message = "Sheet '".to_owned();
        message.append(request.sheet_name.as_str());
        message.append("' already has a pin named '");
        message.append(request.pin_name.as_str());
        message.append("'");
        return Err(Refusal::Message(message));
    }
    if request.side.is_some() {
        let sheet_box = SheetBox::of(&sheets[i]);
        if let Err(refusal) = ensure_pin_is_on_sheet_edge(
            sheet_box,
            request.sheet_name.as_str(),
            side,
            request.x,
            request.y,
        ) {
            return Err(refusal);
        }
    }
    let pin = SheetPin {
        name: request.pin_name.clone(),
        pin_type: request.pin_type.clone(),
        x: request.x,
        y: request.y,
        rotation: Some(rotation),
    };
    let id = sheets[i].uuid.clone();
    let sheet = &mut sheets[i];
    sheet.pins.push(pin);
    assert(pin_views(sheets@[i as int].pins@) =~= before[i as int].pins.push(pin@));
    assert(sheet_views(sheets@) =~= with_added_pin(before, *request));
    Ok(id)
}

/// A field of a pin that an edit may set.
#[derive(Clone, Copy, Debug, PartialEq, Eq, Structural)]
pub enum PinField {
    Name,
    PinType,
    Position,
    Side,
}

impl PinField {
    /// The name under which the field is reported.
    pub fn label(self) -> (label: &'static str)
        ensures
            label@ == (match self {
                PinField::Name => "name"@,
                PinField::PinType => "pin_type"@,
                PinField::Position => "position"@,
                PinField::Side => "side"@,
            }),
    {
        match self {
            PinField::Name => "name",
            PinField::PinType => "pin_type",
            PinField::Position => "position",
            PinField::Side => "side",
        }
    }
}

/// A request to change one pin of a sheet. A position counts where both of its
/// coordinates are given.
#[derive(Debug)]
pub struct EditPinRequest {
    pub sheet_name: String,
    pub pin_name: String,
    pub new_name: Option<String>,
    pub pin_type: Option<String>,
    pub x: Option<i128>,
    pub y: Option<i128>,
    pub side: Option<String>,
}

/// The pin after the edit.
pub open spec fn edited_pin(pin: PinView, request: EditPinRequest) -> PinView {
    PinView {
        name: match request.new_name {
            Some(name) => name@,
            None => pin.name,
        },
        pin_type: match request.pin_type {
            Some(pin_type) => pin_type@,
            None => pin.pin_type,
        },
        x: if request.x is Some && request.y is Some {
            request.x->0 as int
        } else {
            pin.x
        },
        y: if request.x is Some && request.y is Some {
            request.y->0 as int
        } else {
            pin.y
        },
        rotation: match request.side {
            Some(side) => side_rotation(side@),
            None => pin.rotation,
        },
    }
}

/// One field, if the condition holds.
pub open spec fn field_if<T>(condition: bool, field: T) -> Seq<T> {
    if condition {
        seq![field]
    } else {
        seq![]
    }
}

/// The fields that the caller asked to set.
pub open spec fn requested_pin_fields(request: EditPinRequest) -> Seq<PinField> {
    field_if(request.new_name is Some, PinField::Name) + field_if(
        request.pin_type is Some,
        PinField::PinType,
    ) + field_if(request.x is Some && request.y is Some, PinField::Position) + field_if(
        request.side is Some,
        PinField::Side,
    )
}

/// The fields in which the edited pin differs.
pub open spec fn changed_pin_fields(pin: PinView, request: EditPinRequest) -> Seq<PinField> {
    let after = edited_pin(pin, request);
    field_if(after.name != pin.name, PinField::Name) + field_if(
        after.pin_type != pin.pin_type,
        PinField::PinType,
    ) + field_if(after.x != pin.x || after.y != pin.y, PinField::Position) + field_if(
        after.rotation != pin.rotation,
        PinField::Side,
    )
}

/// Why a request to edit a pin is refused, if it is. The side is judged against
/// the position that the pin ends up at.
pub open spec fn edit_pin_refusal(
    sheets: Seq<SheetView>,
    request: EditPinRequest,
) -> Option<RefusalView> {
    if request.pin_type is Some && !is_pin_type(request.pin_type->0@) {
        Some(RefusalView::Message(invalid_pin_type_text(request.pin_type->0@)))
    } else if request.side is Some && side_rotation(request.side->0@) is None {
        Some(side_refusal(request.side->0@))
    } else {
        match sheet_named(sheets, request.sheet_name@, 0) {
            None => Some(RefusalView::Message(sheet_not_found_text(request.sheet_name@))),
            Some(i) => match pin_named(sheets[i].pins, request.pin_name@, 0) {
                None => Some(
                    RefusalView::Message(
                        pin_not_found_text(request.pin_name@, request.sheet_name@),
                    ),
                ),
                Some(k) => {
                    let after = edited_pin(sheets[i].pins[k], request);
                    let off_edge = match request.side {
                        Some(side) => edge_refusal(
                            box_of(sheets[i]),
                            request.sheet_name@,
                            side@,
                            after.x,
                            after.y,
                        ),
                        None => None,
                    };
                    if off_edge is Some {
                        off_edge
                    } else if requested_pin_fields(request).len() == 0 {
                        Some(
                            RefusalView::Message(
                                "No fields to change — provide at least one of: new_name, pin_type, side, x+y"@,
                            ),
                        )
                    } else {
                        None
                    }
                },
            },
        }
    }
}

/// The sheets after the pin was edited.
pub open spec fn with_edited_pin(
    sheets: Seq<SheetView>,
    request: EditPinRequest,
) -> Seq<SheetView> {
    let i = sheet_named(sheets, request.sheet_name@, 0)->0;
    let k = pin_named(sheets[i].pins, request.pin_name@, 0)->0;
    sheets.update(
        i,
        with_pins(
            sheets[i],
            sheets[i].pins.update(k, edited_pin(sheets[i].pins[k], request)),
        ),
    )
}

/// What an accepted edit of a pin did. Where no field changed, nothing need be
/// written.
#[derive(Debug)]
pub struct PinEdit {
    pub sheet_uuid: String,
    pub requested: Vec<PinField>,
    pub changed: Vec<PinField>,
    pub saved_name: String,
}

/// Change one pin of a sheet. A refused request changes nothing.
pub fn edit_sheet_pin(sheets: &mut Vec<Sheet>, request: &EditPinRequest) -> (edit: Result<
    PinEdit,
    Refusal,
>)
    ensures
        match edit {
            Ok(done) => {
                let before = sheet_views(old(sheets)@);
                let i = sheet_named(before, request.sheet_name@, 0)->0;
                let pin = before[i].pins[pin_named(before[i].pins, request.pin_name@, 0)->0];
                &&& edit_pin_refusal(before, *request) is None
                &&& sheet_views(final(sheets)@) == with_edited_pin(before, *request)
                &&& done.sheet_uuid@ == before[i].uuid
                &&& done.requested@ == requested_pin_fields(*request)
                &&& done.changed@ == changed_pin_fields(pin, *request)
                &&& done.saved_name@ == edited_pin(pin, *request).name
            },
            Err(refusal) => {
                &&& edit_pin_refusal(sheet_views(old(sheets)@), *request) == Some(refusal@)
                &&& final(sheets)@ == old(sheets)@
            },
        },
{
    let ghost before = sheet_views(sheets@);
    if let Some(pin_type) = &request.pin_type {
        if let Err(refusal) = validate_pin_type(pin_type.as_str()) {
            return Err(refusal);
        }
    }
    let requested_rotation: Option<i64> = match &request.side {
        Some(side) => match sheet_pin_rotation_for(side.as_str()) {
            Ok(rotation) => Some(rotation),
            Err(refusal) => {
                return Err(refusal);
            },
        },
        None => None,
    };
    let i = match find_sheet(sheets, request.sheet_name.as_str()) {
        Some(i) => i,
        None => {
            return Err(sheet_not_found(request.sheet_name.as_str()));
        },
    };
    assert(before[i as int] == sheets@[i as int]@);
    let k = match find_pin(&sheets[i].pins, request.pin_name.as_str()) {
        Some(k) => k,
        None => {
            return Err(pin_not_found(request.pin_name.as_str(), request.sheet_name.as_str()));
        },
    };
    let ghost pin = before[i as int].pins[k as int];
    assert(pin == sheets@[i as int].pins@[k as int]@);
    let sheet_box = SheetBox::of(&sheets[i]);
    let mut edited = sheets[i].pins[k].clone();
    let mut requested: Vec<PinField> = Vec::new();
    let mut changed: Vec<PinField> = Vec::new();
    if let Some(name) = &request.new_name {
        requested.push(PinField::Name);
        if !same_text(edited.name.as_str(), name.as_str()) {
            edited.name = name.clone();
            changed.push(PinField::Name);
        }
    }
    if let Some(pin_type) = &request.pin_type {
        requested.push(PinField::PinType);
        if !same_text(edited.pin_type.as_str(), pin_type.as_str()) {
            edited.pin_type = pin_type.clone();
            changed.push(PinField::PinType);
        }
    }
    if let (Some(x), Some(y)) = (request.x, request.y) {
        requested.push(PinField::Position);
        if edited.x != x || edited.y != y {
            edited.x = x;
            edited.y = y;
            changed.push(PinField::Position);
        }
    }
    if let Some(side) = &request.side {
        requested.push(PinField::Side);
        if let Err(refusal) = ensure_pin_is_on_sheet_edge(
            sheet_box,
            request.sheet_name.as_str(),
            side.as_str(),
            edited.x,
            edited.y,
        ) {
            return Err(refusal);
        }
        if edited.rotation != requested_rotation {
            edited.rotation = requested_rotation;
            changed.push(PinField::Side);
        }
    }
    assert(edited@ == edited_pin(pin, *request));
    assert(requested@ =~= requested_pin_fields(*request));
    assert(changed@ =~= changed_pin_fields(pin, *request));
    if requested.len() == 0 {
        return Err(
            Refusal::Message(
                "No fields to change — provide at least one of: new_name, pin_type, side, x+y".to_owned(),
            ),
        );
    }
    let saved_name = edited.name.clone();
    let sheet_uuid = sheets[i].uuid.clone();
    let sheet = &mut sheets[i];
    sheet.pins[k] = edited;
    assert(pin_views(sheets@[i as int].pins@) =~= before[i as int].pins.update(
        k as int,
        edited_pin(pin, *request),
    ));
    assert(sheet_views(sheets@) =~= with_edited_pin(before, *request));
    Ok(PinEdit { sheet_uuid, requested, changed, saved_name })
}

/// Why a request to delete a pin is refused, if it is.
pub open spec fn delete_pin_refusal(
    sheets: Seq<SheetView>,
    sheet_name: Seq<char>,
    pin_name: Seq<char>,
) -> Option<RefusalView> {
    match sheet_named(sheets, sheet_name, 0) {
        None => Some(RefusalView::Message(sheet_not_found_text(sheet_name))),
        Some(i) => if pin_named(sheets[i].pins, pin_name, 0) is None {
            Some(RefusalView::Message(pin_not_found_text(pin_name, sheet_name)))
        } else {
            None
        },
    }
}

/// The sheets after the pin was deleted.
pub open spec fn without_pin(
    sheets: Seq<SheetView>,
    sheet_name: Seq<char>,
    pin_name: Seq<char>,
) -> Seq<SheetView> {
    let i = sheet_named(sheets, sheet_name, 0)->0;
    let k = pin_named(sheets[i].pins, pin_name, 0)->0;
    sheets.update(i, with_pins(sheets[i], sheets[i].pins.remove(k)))
}

/// What an accepted deletion of a pin did: the UUID of the sheet, and where the
/// pin stood among its pins.
#[derive(Debug)]
pub struct PinDeletion {
    pub sheet_uuid: String,
    pub index: usize,
}

/// Remove a single pin from a sheet. A refused request changes nothing.
pub fn delete_sheet_pin(sheets: &mut Vec<Sheet>, sheet_name: &str, pin_name: &str) -> (
deletion: Result<PinDeletion, Refusal>)
    ensures
        match deletion {
            Ok(done) => {
                let before = sheet_views(old(sheets)@);
                let sheet = before[sheet_named(before, sheet_name@, 0)->0];
                &&& delete_pin_refusal(before, sheet_name@, pin_name@) is None
                &&& sheet_views(final(sheets)@) == without_pin(before, sheet_name@, pin_name@)
                &&& done.sheet_uuid@ == sheet.uuid
                &&& pin_named(sheet.pins, pin_name@, 0) == Some(done.index as int)
            },
            Err(refusal) => {
                &&& delete_pin_refusal(sheet_views(old(sheets)@), sheet_name@, pin_name@) == Some(
                    refusal@,
                )
                &&& final(sheets)@ == old(sheets)@
            },
        },
{
    let ghost before = sheet_views(sheets@);
    let i = match find_sheet(sheets, sheet_name) {
        Some(i) => i,
        None => {
            return Err(sheet_not_found(sheet_name));
        },
    };
    assert(before[i as int] == sheets@[i as int]@);
    let k = match find_pin(&sheets[i].pins, pin_name) {
        Some(k) => k,
        None => {
            return Err(pin_not_found(pin_name, sheet_name));
        },
    };
    let sheet_uuid = sheets[i].uuid.clone();
    let sheet = &mut sheets[i];
    let _ = sheet.pins.remove(k);
    assert(pin_views(sheets@[i as int].pins@) =~= before[i as int].pins.remove(k as int));
    assert(sheet_views(sheets@) =~= without_pin(before, sheet_name@, pin_name@));
    Ok(PinDeletion { sheet_uuid, index: k })
}

pub open spec fn sheet_not_written_text(sheet_name: Seq<char>) -> Seq<char> {
    "sheet '"@ + sheet_name + "' is not in the schematic that was just written"@
}

pub open spec fn pin_not_written_text(sheet_name: Seq<char>, pin_name: Seq<char>) -> Seq<char> {
    "pin '"@ + pin_name + "' is not on sheet '"@ + sheet_name
        + "' in the schematic that was just written"@
}

/// Find a pin in the sheets read back off the file that was just written, so that
/// a response can describe the pin that was saved.
pub fn read_back_sheet_pin(sheets: &Vec<Sheet>, sheet_name: &str, pin_name: &str) -> (pin: Result<
    SheetPin,
    String,
>)
    ensures
        ({
            let saved = sheet_views(sheets@);
            match sheet_named(saved, sheet_name@, 0) {
                None => pin matches Err(e) && e@ == sheet_not_written_text(sheet_name@),
                Some(i) => match pin_named(saved[i].pins, pin_name@, 0) {
                    None => pin matches Err(e) && e@ == pin_not_written_text(
                        sheet_name@,
                        pin_name@,
                    ),
                    Some(k) => pin matches Ok(p) && p@ == saved[i].pins[k],
                },
            }
        }),
{
    let i = match find_sheet(sheets, sheet_name) {
        Some(i) => i,
        None => {
            let mut message = "sheet '".to_owned();
            message.append(sheet_name);
            message.append("' is not in the schematic that was just written");
            return Err(message);
        },
    };
    assert(sheet_views(sheets@)[i as int] == sheets@[i as int]@);
    match find_pin(&sheets[i].pins, pin_name) {
        Some(k) => {
            assert(pin_views(sheets@[i as int].pins@)[k as int]
                == sheets@[i as int].pins@[k as int]@);
            Ok(sheets[i].pins[k].clone())
        },
        None => {
            let mut message = "pin '".to_owned();
            message.append(pin_name);
            message.append("' is not on sheet '");
            message.append(sheet_name);
            message.append("' in the schematic that was just written");
            Err(message)
        },
    }
}

/// A saved pin as a response describes it.
#[derive(Debug)]
pub struct SavedPin {
    pub name: String,
    pub pin_type: String,
    pub x: i128,
    pub y: i128,
    pub side: Option<String>,
}

/// Describe a saved pin: what it holds, and the edge that its rotation selects.
pub fn describe_pin(pin: &SheetPin) -> (saved: SavedPin)
    ensures
        saved.name@ == pin.name@,
        saved.pin_type@ == pin.pin_type@,
        saved.x == pin.x,
        saved.y == pin.y,
        text_of(saved.side) == rotation_side(pin.rotation),
{
    let side = match sheet_pin_side_for_rotation(pin.rotation) {
        Some(side) => Some(side.to_owned()),
        None => None,
    };
    SavedPin {
        name: pin.name.clone(),
        pin_type: pin.pin_type.clone(),
        x: pin.x,
        y: pin.y,
        side,
    }
}

/// Where no field is reported as changed, the edit leaves the pin as it is, so
/// nothing need be written.
pub proof fn law_no_changed_field_means_same_pin(pin: PinView, request: EditPinRequest)
    requires
        changed_pin_fields(pin, request).len() == 0,
    ensures
        edited_pin(pin, request) == pin,
{
}

/// Making the same edit a second time leaves the pin as the first left it, and
/// reports no change.
pub proof fn law_pin_edit_is_idempotent(pin: PinView, request: EditPinRequest)
    ensures
        edited_pin(edited_pin(pin, request), request) == edited_pin(pin, request),
        changed_pin_fields(edited_pin(pin, request), request) == Seq::<PinField>::empty(),
{
    assert(changed_pin_fields(edited_pin(pin, request), request) =~= Seq::<PinField>::empty());
}

/// Only fields that were asked for are reported as changed.
pub proof fn law_changed_pin_fields_were_requested(pin: PinView, request: EditPinRequest)
    ensures
        forall|i: int|
            0 <= i < changed_pin_fields(pin, request).len() ==> requested_pin_fields(
                request,
            ).contains(#[trigger] changed_pin_fields(pin, request)[i]),
{
    let asked = requested_pin_fields(request);
    let sets_position = request.x is Some && request.y is Some;
    let a = field_if(request.new_name is Some, PinField::Name);
    let b = field_if(request.pin_type is Some, PinField::PinType);
    let c = field_if(sets_position, PinField::Position);
    if request.new_name is Some {
        assert(asked[0] == PinField::Name);
    }
    if request.pin_type is Some {
        assert(asked[a.len() as int] == PinField::PinType);
    }
    if sets_position {
        assert(asked[(a + b).len() as int] == PinField::Position);
    }
    if request.side is Some {
        assert(asked[(a + b + c).len() as int] == PinField::Side);
    }
}

/// A pin that was added is found under its name, with the rotation of the edge it
/// was put on.
pub proof fn law_added_pin_is_found(sheets: Seq<SheetView>, request: AddPinRequest)
    requires
        add_pin_refusal(sheets, request) is None,
    ensures
        ({
            let after = with_added_pin(sheets, request);
            let i = sheet_named(sheets, request.sheet_name@, 0)->0;
            &&& sheet_named(after, request.sheet_name@, 0) == Some(i)
            &&& pin_named(after[i].pins, request.pin_name@, 0) == Some(sheets[i].pins.len() as int)
            &&& after[i].pins.last() == request.pin()
            &&& request.pin().rotation is Some
            &&& rotation_side(request.pin().rotation) == Some(request.edge())
        }),
{
    crate::geometry::lemma_side_names();
    let after = with_added_pin(sheets, request);
    lemma_sheet_named(sheets, request.sheet_name@, 0);
    let i = sheet_named(sheets, request.sheet_name@, 0)->0;
    lemma_sheet_named(after, request.sheet_name@, 0);
    assert(forall|j: int| 0 <= j < sheets.len() ==> (#[trigger] after[j]).name == sheets[j].name);
    assert(sheet_named(after, request.sheet_name@, 0) == Some(i)) by {
        match sheet_named(after, request.sheet_name@, 0) {
            Some(j) => {
                if j < i {
                    assert(sheets[j].name != request.sheet_name@);
                } else if j > i {
                    assert(after[i].name != request.sheet_name@);
                }
            },
            None => {
                assert(after[i].name != request.sheet_name@);
            },
        }
    }
    let old_pins = sheets[i].pins;
    let new_pins = after[i].pins;
    lemma_pin_named(old_pins, request.pin_name@, 0);
    lemma_pin_named(new_pins, request.pin_name@, 0);
    let last = old_pins.len() as int;
    match pin_named(new_pins, request.pin_name@, 0) {
        Some(k) => {
            if k < last {
                assert(new_pins[k] == old_pins[k]);
            }
        },
        None => {
            assert(new_pins[last].name == request.pin_name@);
        },
    }
}

/// Deleting the pin that was added last gives back the sheets as they were before
/// it was added.
pub proof fn law_delete_undoes_add(sheets: Seq<SheetView>, request: AddPinRequest)
    requires
        add_pin_refusal(sheets, request) is None,
    ensures
        delete_pin_refusal(
            with_added_pin(sheets, request),
            request.sheet_name@,
            request.pin_name@,
        ) is None,
        without_pin(
            with_added_pin(sheets, request),
            request.sheet_name@,
            request.pin_name@,
        ) == sheets,
{
    law_added_pin_is_found(sheets, request);
    lemma_sheet_named(sheets, request.sheet_name@, 0);
    let i = sheet_named(sheets, request.sheet_name@, 0)->0;
    let after = with_added_pin(sheets, request);
    let last = sheets[i].pins.len() as int;
    assert(after[i].pins.remove(last) =~= sheets[i].pins);
    assert(without_pin(after, request.sheet_name@, request.pin_name@) =~= sheets);
}

/// Where the pin names of a sheet differ from each other, a deleted pin is no
/// longer found.
pub proof fn law_deleted_pin_is_gone(pins: Seq<PinView>, name: Seq<char>)
    requires
        pin_named(pins, name, 0) is Some,
        forall|a: int, b: int|
            0 <= a < b < pins.len() ==> (#[trigger] pins[a]).name != (#[trigger] pins[b]).name,
    ensures
        pin_named(pins.remove(pin_named(pins, name, 0)->0), name, 0) is None,
{
    lemma_pin_named(pins, name, 0);
    let k = pin_named(pins, name, 0)->0;
    let rest = pins.remove(k);
    lemma_pin_named(rest, name, 0);
    if let Some(j) = pin_named(rest, name, 0) {
        if j < k {
            assert(rest[j] == pins[j]);
        } else {
            assert(rest[j] == pins[j + 1]);
        }
    }
}

} // verus!
