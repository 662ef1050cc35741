//! What the operations on the sheets and pins of one schematic give, field by
//! field, for each request.

use crate::geometry::{
    box_of, edge_capacity, edge_of, edge_refusal, invalid_pin_type_text, is_on_edge, is_pin_type,
    is_side, lemma_side_names, not_an_edge_text, off_edge_text, past_end_text, rotation_side,
    side_rotation, Axis, SheetBox,
};
use crate::model::{
    lemma_pin_named, lemma_sheet_named, pin_named, sheet_named, PinView, SheetView,
};
use crate::new_sheets::{
    add_sheet_refusal, copied_sheet, copied_sheet_transitions, copy_file_taken_text,
    copy_name_taken_text, duplicate_refusal, name_taken_text, new_sheet_transitions,
    next_page_text, patched_count, requested_sheet, root_instance_path, sheet_file_refusal,
    sheet_instance_path, source_missing_text, AddSheetRequest, ChildDocument, DuplicateOnDisk,
    DuplicateRequest, OnDisk, PatchedDocument, TransitionView,
};
use crate::numeral::{law_page_numeral_reads_back, u32_of};
use crate::paths::{directory_of, is_same_path, is_sheet_file, joined};
use crate::pins::{
    add_pin_refusal, changed_pin_fields, delete_pin_refusal, edit_pin_refusal, edited_pin,
    field_if, pin_exists_text, requested_pin_fields, with_added_pin, with_edited_pin, without_pin,
    AddPinRequest, EditPinRequest, PinField,
};
use crate::refusal::{pin_not_found_text, sheet_not_found_text, RefusalView};
use crate::sheets::{
    changed_sheet_fields, edit_sheet_refusal, edited_sheet, max_page, page_number,
    requested_sheet_fields, summary_of, with_edited_sheet, with_moved_sheet, without_sheet,
    EditSheetRequest, SheetField,
};
use vstd::prelude::*;

verus! {

/// The sheet at `i` is the first of that name: the one that a request by name is
/// about.
pub open spec fn is_first_sheet(sheets: Seq<SheetView>, name: Seq<char>, i: int) -> bool {
    &&& 0 <= i < sheets.len()
    &&& sheets[i].name == name
    &&& forall|j: int| 0 <= j < i ==> (#[trigger] sheets[j]).name != name
}

/// The pin at `k` is the first of that name.
pub open spec fn is_first_pin(pins: Seq<PinView>, name: Seq<char>, k: int) -> bool {
    &&& 0 <= k < pins.len()
    &&& pins[k].name == name
    &&& forall|j: int| 0 <= j < k ==> (#[trigger] pins[j]).name != name
}

/// The first sheet of a name is the one that is found under it.
pub proof fn law_first_sheet_is_found(sheets: Seq<SheetView>, name: Seq<char>, i: int)
    ensures
        sheet_named(sheets, name, 0) == Some(i) <==> is_first_sheet(sheets, name, i),
        sheet_named(sheets, name, 0) is None <==> forall|j: int|
            0 <= j < sheets.len() ==> (#[trigger] sheets[j]).name != name,
{
    lemma_sheet_named(sheets, name, 0);
    if is_first_sheet(sheets, name, i) {
        match sheet_named(sheets, name, 0) {
            Some(j) => {
                if j < i {
                    assert(sheets[j].name != name);
                }
                if i < j {
                    assert(sheets[i].name != name);
                }
            },
            None => {
                assert(sheets[i].name != name);
            },
        }
    }
}

/// The first pin of a name is the one that is found under it.
pub proof fn law_first_pin_is_found(pins: Seq<PinView>, name: Seq<char>, k: int)
    ensures
        pin_named(pins, name, 0) == Some(k) <==> is_first_pin(pins, name, k),
        pin_named(pins, name, 0) is None <==> forall|j: int|
            0 <= j < pins.len() ==> (#[trigger] pins[j]).name != name,
{
    lemma_pin_named(pins, name, 0);
    if is_first_pin(pins, name, k) {
        match pin_named(pins, name, 0) {
            Some(j) => {
                if j < k {
                    assert(pins[j].name != name);
                }
                if k < j {
                    assert(pins[k].name != name);
                }
            },
            None => {
                assert(pins[k].name != name);
            },
        }
    }
}

/// A pin on the right edge is not turned, one on the top edge by 90 degrees, one
/// on the left by 180, one on the bottom by 270; no other name is an edge, and no
/// other rotation selects one.
pub proof fn law_each_edge_has_its_rotation(side: Seq<char>, rotation: Option<i64>)
    ensures
        side_rotation("right"@) == Some(0i64),
        side_rotation("top"@) == Some(90_000_000_000_000i64),
        side_rotation("left"@) == Some(180_000_000_000_000i64),
        side_rotation("bottom"@) == Some(270_000_000_000_000i64),
        side_rotation(side) is Some <==> side == "right"@ || side == "top"@ || side == "left"@
            || side == "bottom"@,
        is_side(side) <==> side_rotation(side) is Some,
        rotation_side(rotation) == Some(side) <==> rotation is Some && side_rotation(side)
            == rotation,
        rotation_side(None) is None,
{
    lemma_side_names();
}

/// A pin is an input, an output, bidirectional, tri-state or passive, and nothing
/// else.
pub proof fn law_five_pin_types(pin_type: Seq<char>)
    ensures
        is_pin_type(pin_type) <==> seq![
            "input"@,
            "output"@,
            "bidirectional"@,
            "tri_state"@,
            "passive"@,
        ].contains(pin_type),
{
    let all = seq!["input"@, "output"@, "bidirectional"@, "tri_state"@, "passive"@];
    assert(all[0] == "input"@ && all[1] == "output"@ && all[2] == "bidirectional"@ && all[3]
        == "tri_state"@ && all[4] == "passive"@);
}

/// `v` is within a nanometre of the stretch from `low` to `high`.
pub open spec fn nearly_within(low: int, v: int, high: int) -> bool {
    low - 1_000_000 <= v <= high + 1_000_000
}

/// The point is, to within a nanometre, on the edge of the box: the right and left
/// edges run down the box at its two sides, the top and bottom edges across it.
pub open spec fn touches_edge(b: SheetBox, side: Seq<char>, x: int, y: int) -> bool {
    let right = b.x + b.width;
    let bottom = b.y + b.height;
    ||| side == "right"@ && nearly_within(right, x, right) && nearly_within(b.y as int, y, bottom)
    ||| side == "left"@ && nearly_within(b.x as int, x, b.x as int) && nearly_within(
        b.y as int,
        y,
        bottom,
    )
    ||| side == "top"@ && nearly_within(b.y as int, y, b.y as int) && nearly_within(
        b.x as int,
        x,
        right,
    )
    ||| side == "bottom"@ && nearly_within(bottom, y, bottom) && nearly_within(
        b.x as int,
        x,
        right,
    )
}

/// A position is accepted for an edge exactly where it touches that edge of the
/// box.
pub proof fn law_accepted_positions_touch_the_edge(
    b: SheetBox,
    sheet_name: Seq<char>,
    side: Seq<char>,
    x: int,
    y: int,
)
    requires
        is_side(side),
    ensures
        edge_refusal(b, sheet_name, side, x, y) is None <==> touches_edge(b, side, x, y),
        is_on_edge(b, side, x, y) <==> touches_edge(b, side, x, y),
{
    lemma_side_names();
}

/// The right and left edges hold a pin at the two sides of the box and run from
/// its top to its bottom; the top and bottom edges hold it there and run from its
/// left to its right. No other name is an edge: it has no room, and refuses
/// nothing.
pub proof fn law_edges_are_those_of_the_box(
    b: SheetBox,
    sheet_name: Seq<char>,
    side: Seq<char>,
    x: int,
    y: int,
)
    ensures
        is_side(side) <==> edge_of(b, side) is Some,
        is_side(side) ==> {
            let e = edge_of(b, side)->0;
            let upright = side == "right"@ || side == "left"@;
            &&& upright ==> e.axis == Axis::X && e.span_axis == Axis::Y && e.span_start == b.y
                && e.span_end == b.y + b.height
            &&& !upright ==> e.axis == Axis::Y && e.span_axis == Axis::X && e.span_start == b.x
                && e.span_end == b.x + b.width
            &&& e.coordinate == (if side == "right"@ {
                b.x + b.width
            } else if side == "left"@ {
                b.x as int
            } else if side == "top"@ {
                b.y as int
            } else {
                b.y + b.height
            })
        },
        !is_side(side) ==> edge_refusal(b, sheet_name, side, x, y) is None && edge_capacity(
            b,
            side,
        ) == 0,
{
    lemma_side_names();
}

/// A refused position is refused for one of its two coordinates: for the one that
/// an edge holds fixed where that is off, else for the one along the edge.
pub proof fn law_refused_coordinate_is_named(
    b: SheetBox,
    sheet_name: Seq<char>,
    side: Seq<char>,
    x: int,
    y: int,
)
    requires
        is_side(side),
        !touches_edge(b, side, x, y),
    ensures
        ({
            let upright = side == "right"@ || side == "left"@;
            let line = if side == "right"@ {
                b.x + b.width
            } else if side == "left"@ {
                b.x as int
            } else if side == "top"@ {
                b.y as int
            } else {
                b.y + b.height
            };
            let off_line = if upright {
                !nearly_within(line, x, line)
            } else {
                !nearly_within(line, y, line)
            };
            &&& edge_refusal(b, sheet_name, side, x, y) is Some
            &&& edge_refusal(b, sheet_name, side, x, y)->0 is InvalidArgument
            &&& edge_refusal(b, sheet_name, side, x, y)->0->InvalidArgument_argument == (
            if upright == off_line {
                "x"@
            } else {
                "y"@
            })
        }),
{
    lemma_side_names();
}

/// A refused position is told by the coordinate that is off and by where the edge
/// is: the line it holds, or the two ends it runs between.
pub proof fn law_refused_position_is_told(
    b: SheetBox,
    sheet_name: Seq<char>,
    side: Seq<char>,
    x: int,
    y: int,
)
    requires
        is_side(side),
        !touches_edge(b, side, x, y),
    ensures
        ({
            let upright = side == "right"@ || side == "left"@;
            let line = if side == "right"@ {
                b.x + b.width
            } else if side == "left"@ {
                b.x as int
            } else if side == "top"@ {
                b.y as int
            } else {
                b.y + b.height
            };
            let reason = edge_refusal(b, sheet_name, side, x, y)->0->InvalidArgument_reason;
            &&& upright && !nearly_within(line, x, line) ==> reason == off_edge_text(
                Axis::X,
                x,
                side,
                sheet_name,
                line,
            )
            &&& upright && nearly_within(line, x, line) ==> reason == past_end_text(
                Axis::Y,
                y,
                side,
                sheet_name,
                b.y as int,
                b.y + b.height,
            )
            &&& !upright && !nearly_within(line, y, line) ==> reason == off_edge_text(
                Axis::Y,
                y,
                side,
                sheet_name,
                line,
            )
            &&& !upright && nearly_within(line, y, line) ==> reason == past_end_text(
                Axis::X,
                x,
                side,
                sheet_name,
                b.x as int,
                b.x + b.width,
            )
        }),
{
    lemma_side_names();
}

/// An edge holds as many pins as fit into its length, to within a nanometre, at
/// 2.54 mm for each: those and no more.
pub proof fn law_capacity_is_what_fits(b: SheetBox, side: Seq<char>)
    requires
        is_side(side),
    ensures
        ({
            let length = if side == "right"@ || side == "left"@ {
                b.height
            } else {
                b.width
            };
            let held = edge_capacity(b, side);
            &&& held > 0 ==> 2_540_000_000_000 * held <= length + 1_000_000
            &&& 2_540_000_000_000 * (held + 1) > length + 1_000_000
        }),
{
    lemma_side_names();
}

/// The box of a sheet has the sheet's corner and size.
pub proof fn law_box_is_that_of_the_sheet(sheet: SheetView)
    ensures
        box_of(sheet).x == sheet.x,
        box_of(sheet).y == sheet.y,
        box_of(sheet).width == sheet.width,
        box_of(sheet).height == sheet.height,
{
}

/// Two sheets differ at most in their pins.
pub open spec fn same_but_pins(a: SheetView, b: SheetView) -> bool {
    &&& a.uuid == b.uuid
    &&& a.name == b.name
    &&& a.file == b.file
    &&& a.x == b.x && a.y == b.y
    &&& a.width == b.width && a.height == b.height
    &&& a.page == b.page
}

/// The sheets are the same but for the pins of the one at `i`.
pub open spec fn same_but_pins_of(
    before: Seq<SheetView>,
    after: Seq<SheetView>,
    i: int,
) -> bool {
    &&& after.len() == before.len()
    &&& forall|j: int| 0 <= j < before.len() && j != i ==> after[j] == #[trigger] before[j]
    &&& same_but_pins(after[i], before[i])
}

/// A pin that is added comes after the others of its sheet. It has the name, the
/// type and the position that were asked for, and the rotation of the edge, which
/// is the right one where none was named. Nothing else changes.
pub proof fn law_added_pin_is_the_requested(
    sheets: Seq<SheetView>,
    request: AddPinRequest,
    i: int,
)
    requires
        is_first_sheet(sheets, request.sheet_name@, i),
    ensures
        ({
            let after = with_added_pin(sheets, request);
            let count = sheets[i].pins.len();
            let pin = after[i].pins[count as int];
            &&& same_but_pins_of(sheets, after, i)
            &&& after[i].pins.len() == count + 1
            &&& after[i].pins.take(count as int) == sheets[i].pins
            &&& pin.name == request.pin_name@
            &&& pin.pin_type == request.pin_type@
            &&& pin.x == request.x
            &&& pin.y == request.y
            &&& pin.rotation == (match request.side {
                Some(side) => side_rotation(side@),
                None => Some(0i64),
            })
        }),
{
    lemma_side_names();
    law_first_sheet_is_found(sheets, request.sheet_name@, i);
    let after = with_added_pin(sheets, request);
    assert(after[i].pins.take(sheets[i].pins.len() as int) =~= sheets[i].pins);
}

/// A pin is added exactly where its type is one of the five, the side, if one is
/// named, is an edge, the sheet is there and has no pin of that name, and the
/// position, if a side is named, touches that edge of the sheet.
pub proof fn law_pin_is_added_exactly_where(sheets: Seq<SheetView>, request: AddPinRequest)
    ensures
        add_pin_refusal(sheets, request) is None <==> {
            &&& is_pin_type(request.pin_type@)
            &&& request.side is Some ==> is_side(request.side->0@)
            &&& exists|i: int|
                {
                    &&& #[trigger] is_first_sheet(sheets, request.sheet_name@, i)
                    &&& forall|k: int|
                        0 <= k < sheets[i].pins.len() ==> (#[trigger] sheets[i].pins[k]).name
                            != request.pin_name@
                    &&& request.side is Some ==> touches_edge(
                        box_of(sheets[i]),
                        request.side->0@,
                        request.x as int,
                        request.y as int,
                    )
                }
        },
{
    lemma_side_names();
    let name = request.sheet_name@;
    match sheet_named(sheets, name, 0) {
        Some(i) => {
            law_first_sheet_is_found(sheets, name, i);
            law_first_pin_is_found(sheets[i].pins, request.pin_name@, 0);
            assert forall|j: int| #[trigger] is_first_sheet(sheets, name, j) implies j == i by {
                law_first_sheet_is_found(sheets, name, j);
            }
            if let Some(side) = request.side {
                if is_side(side@) {
                    law_accepted_positions_touch_the_edge(
                        box_of(sheets[i]),
                        name,
                        side@,
                        request.x as int,
                        request.y as int,
                    );
                }
            }
        },
        None => {
            assert forall|j: int| !#[trigger] is_first_sheet(sheets, name, j) by {
                law_first_sheet_is_found(sheets, name, j);
            }
        },
    }
}

/// An edited pin has the name, the type and the side that were given, and the
/// position where both coordinates were; what was not given is as it was.
pub proof fn law_edited_pin_is_the_requested(pin: PinView, request: EditPinRequest)
    ensures
        ({
            let after = edited_pin(pin, request);
            &&& request.new_name is Some ==> after.name == request.new_name->0@
            &&& request.new_name is None ==> after.name == pin.name
            &&& request.pin_type is Some ==> after.pin_type == request.pin_type->0@
            &&& request.pin_type is None ==> after.pin_type == pin.pin_type
            &&& request.x is Some && request.y is Some ==> after.x == request.x->0 && after.y
                == request.y->0
            &&& request.x is None || request.y is None ==> after.x == pin.x && after.y == pin.y
            &&& request.side is Some ==> after.rotation == side_rotation(request.side->0@)
            &&& request.side is None ==> after.rotation == pin.rotation
        }),
{
}

/// An edit of a pin changes the first pin of that name on the first sheet of that
/// name, and nothing else.
pub proof fn law_pin_edit_touches_one_pin(
    sheets: Seq<SheetView>,
    request: EditPinRequest,
    i: int,
    k: int,
)
    requires
        is_first_sheet(sheets, request.sheet_name@, i),
        is_first_pin(sheets[i].pins, request.pin_name@, k),
    ensures
        ({
            let after = with_edited_pin(sheets, request);
            &&& same_but_pins_of(sheets, after, i)
            &&& after[i].pins.len() == sheets[i].pins.len()
            &&& after[i].pins[k] == edited_pin(sheets[i].pins[k], request)
            &&& forall|m: int|
                0 <= m < sheets[i].pins.len() && m != k ==> after[i].pins[m]
                    == #[trigger] sheets[i].pins[m]
        }),
{
    law_first_sheet_is_found(sheets, request.sheet_name@, i);
    law_first_pin_is_found(sheets[i].pins, request.pin_name@, k);
}

/// A pin is edited exactly where the type and the side, if given, are a type and
/// an edge, the pin is there, something is to be set, and the position that the
/// pin ends up at touches the edge that is given.
pub proof fn law_pin_is_edited_exactly_where(
    sheets: Seq<SheetView>,
    request: EditPinRequest,
    i: int,
    k: int,
)
    requires
        is_first_sheet(sheets, request.sheet_name@, i),
        is_first_pin(sheets[i].pins, request.pin_name@, k),
    ensures
        ({
            let moved = request.x is Some && request.y is Some;
            let x = if moved {
                request.x->0 as int
            } else {
                sheets[i].pins[k].x
            };
            let y = if moved {
                request.y->0 as int
            } else {
                sheets[i].pins[k].y
            };
            edit_pin_refusal(sheets, request) is None <==> {
                &&& request.pin_type is Some ==> is_pin_type(request.pin_type->0@)
                &&& request.side is Some ==> is_side(request.side->0@) && touches_edge(
                    box_of(sheets[i]),
                    request.side->0@,
                    x,
                    y,
                )
                &&& request.new_name is Some || request.pin_type is Some || moved || request.side
                    is Some
            }
        }),
{
    lemma_side_names();
    law_first_sheet_is_found(sheets, request.sheet_name@, i);
    law_first_pin_is_found(sheets[i].pins, request.pin_name@, k);
    let after = edited_pin(sheets[i].pins[k], request);
    if let Some(side) = request.side {
        if is_side(side@) {
            law_accepted_positions_touch_the_edge(
                box_of(sheets[i]),
                request.sheet_name@,
                side@,
                after.x,
                after.y,
            );
        }
    }
}

/// Without its sheet, or without the pin on it, a pin is neither edited nor
/// deleted.
pub proof fn law_missing_pin_is_refused(
    sheets: Seq<SheetView>,
    request: EditPinRequest,
    i: int,
)
    ensures
        (forall|j: int| 0 <= j < sheets.len() ==> (#[trigger] sheets[j]).name
            != request.sheet_name@) ==> edit_pin_refusal(sheets, request) is Some
            && delete_pin_refusal(sheets, request.sheet_name@, request.pin_name@) is Some,
        is_first_sheet(sheets, request.sheet_name@, i) ==> {
            let missing = forall|k: int|
                0 <= k < sheets[i].pins.len() ==> (#[trigger] sheets[i].pins[k]).name
                    != request.pin_name@;
            &&& missing ==> edit_pin_refusal(sheets, request) is Some
            &&& delete_pin_refusal(sheets, request.sheet_name@, request.pin_name@) is Some
                <==> missing
        },
{
    law_first_sheet_is_found(sheets, request.sheet_name@, i);
    if is_first_sheet(sheets, request.sheet_name@, i) {
        law_first_pin_is_found(sheets[i].pins, request.pin_name@, 0);
    }
}

/// A deleted pin is the first of that name on the first sheet of that name; the
/// other pins keep their order, and nothing else changes.
pub proof fn law_deleted_pin_is_the_named(
    sheets: Seq<SheetView>,
    sheet_name: Seq<char>,
    pin_name: Seq<char>,
    i: int,
    k: int,
)
    requires
        is_first_sheet(sheets, sheet_name, i),
        is_first_pin(sheets[i].pins, pin_name, k),
    ensures
        ({
            let after = without_pin(sheets, sheet_name, pin_name);
            &&& same_but_pins_of(sheets, after, i)
            &&& after[i].pins == sheets[i].pins.take(k) + sheets[i].pins.skip(k + 1)
        }),
{
    law_first_sheet_is_found(sheets, sheet_name, i);
    law_first_pin_is_found(sheets[i].pins, pin_name, k);
    let after = without_pin(sheets, sheet_name, pin_name);
    assert(after[i].pins =~= sheets[i].pins.take(k) + sheets[i].pins.skip(k + 1));
}

/// The place of a field in a report.
pub open spec fn pin_field_rank(field: PinField) -> int {
    match field {
        PinField::Name => 0,
        PinField::PinType => 1,
        PinField::Position => 2,
        PinField::Side => 3,
    }
}

/// An edit of a pin reports as requested the fields that were given, and as
/// changed those in which the pin is to differ from what it was, each once and in
/// one order.
pub proof fn law_pin_fields_are_reported(pin: PinView, request: EditPinRequest)
    ensures
        ({
            let requested = requested_pin_fields(request);
            let moved = request.x is Some && request.y is Some;
            &&& requested.contains(PinField::Name) <==> request.new_name is Some
            &&& requested.contains(PinField::PinType) <==> request.pin_type is Some
            &&& requested.contains(PinField::Position) <==> moved
            &&& requested.contains(PinField::Side) <==> request.side is Some
            &&& forall|a: int, b: int|
                0 <= a < b < requested.len() ==> pin_field_rank(#[trigger] requested[a])
                    < pin_field_rank(#[trigger] requested[b])
        }),
        ({
            let changed = changed_pin_fields(pin, request);
            let moved = request.x is Some && request.y is Some;
            &&& changed.contains(PinField::Name) <==> request.new_name is Some
                && request.new_name->0@ != pin.name
            &&& changed.contains(PinField::PinType) <==> request.pin_type is Some
                && request.pin_type->0@ != pin.pin_type
            &&& changed.contains(PinField::Position) <==> moved && (request.x->0 != pin.x
                || request.y->0 != pin.y)
            &&& changed.contains(PinField::Side) <==> request.side is Some && side_rotation(
                request.side->0@,
            ) != pin.rotation
            &&& forall|a: int, b: int|
                0 <= a < b < changed.len() ==> pin_field_rank(#[trigger] changed[a])
                    < pin_field_rank(#[trigger] changed[b])
        }),
{
    let moved = request.x is Some && request.y is Some;
    lemma_pin_fields(
        request.new_name is Some,
        request.pin_type is Some,
        moved,
        request.side is Some,
    );
    let after = edited_pin(pin, request);
    lemma_pin_fields(
        after.name != pin.name,
        after.pin_type != pin.pin_type,
        after.x != pin.x || after.y != pin.y,
        after.rotation != pin.rotation,
    );
}

proof fn lemma_pin_fields(a: bool, b: bool, c: bool, d: bool)
    ensures
        ({
            let all = field_if(a, PinField::Name) + field_if(b, PinField::PinType) + field_if(
                c,
                PinField::Position,
            ) + field_if(d, PinField::Side);
            &&& all.contains(PinField::Name) <==> a
            &&& all.contains(PinField::PinType) <==> b
            &&& all.contains(PinField::Position) <==> c
            &&& all.contains(PinField::Side) <==> d
            &&& forall|m: int, n: int|
                0 <= m < n < all.len() ==> pin_field_rank(#[trigger] all[m]) < pin_field_rank(
                    #[trigger] all[n],
                )
        }),
{
    let s = field_if(a, PinField::Name);
    let t = s + field_if(b, PinField::PinType);
    let u = t + field_if(c, PinField::Position);
    let all = u + field_if(d, PinField::Side);
    if a {
        assert(all[0] == PinField::Name);
    }
    if b {
        assert(all[s.len() as int] == PinField::PinType);
    }
    if c {
        assert(all[t.len() as int] == PinField::Position);
    }
    if d {
        assert(all[u.len() as int] == PinField::Side);
    }
}

/// The highest page in use is at least 1, is no lower than the page of any sheet,
/// and is 1 or the page of some sheet.
pub proof fn law_highest_page_is_in_use(sheets: Seq<SheetView>)
    ensures
        max_page(sheets) >= 1,
        forall|i: int|
            0 <= i < sheets.len() && (#[trigger] sheets[i]).page is Some && u32_of(
                sheets[i].page->0,
            ) is Some ==> u32_of(sheets[i].page->0)->0 <= max_page(sheets),
        max_page(sheets) == 1 || exists|i: int|
            0 <= i < sheets.len() && (#[trigger] sheets[i]).page is Some && u32_of(
                sheets[i].page->0,
            ) == Some(max_page(sheets)),
    decreases sheets.len(),
{
    if sheets.len() > 0 {
        let shorter = sheets.drop_last();
        let last = sheets.len() - 1;
        law_highest_page_is_in_use(shorter);
        assert forall|i: int|
            0 <= i < sheets.len() && (#[trigger] sheets[i]).page is Some && u32_of(
                sheets[i].page->0,
            ) is Some implies u32_of(sheets[i].page->0)->0 <= max_page(sheets) by {
            if i < last {
                assert(shorter[i] == sheets[i]);
            } else {
                assert(page_number(sheets.last()) == u32_of(sheets[i].page->0));
            }
        }
        if max_page(sheets) != 1 {
            if max_page(sheets) == max_page(shorter) {
                let i = choose|i: int|
                    0 <= i < shorter.len() && (#[trigger] shorter[i]).page is Some && u32_of(
                        shorter[i].page->0,
                    ) == Some(max_page(shorter));
                assert(sheets[i] == shorter[i]);
            } else {
                assert(sheets[last].page is Some);
            }
        }
    }
}

/// A description says of a sheet what the sheet holds, and of each of its pins, in
/// order, the name, the type and the position.
pub proof fn law_description_is_that_of_the_sheet(sheet: SheetView)
    ensures
        ({
            let summary = summary_of(sheet);
            &&& summary.name == sheet.name
            &&& summary.file == sheet.file
            &&& summary.uuid == sheet.uuid
            &&& summary.x == sheet.x
            &&& summary.y == sheet.y
            &&& summary.width == sheet.width
            &&& summary.height == sheet.height
            &&& summary.page == sheet.page
            &&& summary.pins.len() == sheet.pins.len()
            &&& forall|k: int|
                0 <= k < sheet.pins.len() ==> (#[trigger] summary.pins[k]).name
                    == sheet.pins[k].name && summary.pins[k].pin_type == sheet.pins[k].pin_type
                    && summary.pins[k].x == sheet.pins[k].x && summary.pins[k].y
                    == sheet.pins[k].y
        }),
{
}

/// An edited sheet has the name and the file that were given, the position where
/// both coordinates were, and the size where width and height were; the rest is as
/// it was.
pub proof fn law_edited_sheet_is_the_requested(sheet: SheetView, request: EditSheetRequest)
    ensures
        ({
            let after = edited_sheet(sheet, request);
            &&& request.new_name is Some ==> after.name == request.new_name->0@
            &&& request.new_name is None ==> after.name == sheet.name
            &&& request.new_file is Some ==> after.file == request.new_file->0@
            &&& request.new_file is None ==> after.file == sheet.file
            &&& request.x is Some && request.y is Some ==> after.x == request.x->0 && after.y
                == request.y->0
            &&& request.x is None || request.y is None ==> after.x == sheet.x && after.y
                == sheet.y
            &&& request.width is Some && request.height is Some ==> after.width
                == request.width->0 && after.height == request.height->0
            &&& request.width is None || request.height is None ==> after.width == sheet.width
                && after.height == sheet.height
            &&& after.uuid == sheet.uuid
            &&& after.page == sheet.page
            &&& after.pins == sheet.pins
        }),
{
}

/// An edit changes the first sheet of that name, a move its position alone, and a
/// deletion takes it out; the other sheets stay as they were and in their order.
pub proof fn law_one_sheet_is_touched(
    sheets: Seq<SheetView>,
    request: EditSheetRequest,
    x: i64,
    y: i64,
    i: int,
)
    requires
        is_first_sheet(sheets, request.sheet_name@, i),
    ensures
        ({
            let edited = with_edited_sheet(sheets, request);
            let moved = with_moved_sheet(sheets, request.sheet_name@, x, y);
            &&& edited.len() == sheets.len() && moved.len() == sheets.len()
            &&& edited[i] == edited_sheet(sheets[i], request)
            &&& moved[i].x == x && moved[i].y == y
            &&& moved[i].uuid == sheets[i].uuid && moved[i].name == sheets[i].name
                && moved[i].file == sheets[i].file
            &&& moved[i].width == sheets[i].width && moved[i].height == sheets[i].height
            &&& moved[i].page == sheets[i].page && moved[i].pins == sheets[i].pins
            &&& forall|j: int|
                0 <= j < sheets.len() && j != i ==> edited[j] == #[trigger] sheets[j] && moved[j]
                    == sheets[j]
            &&& without_sheet(sheets, request.sheet_name@) == sheets.take(i) + sheets.skip(i + 1)
        }),
{
    law_first_sheet_is_found(sheets, request.sheet_name@, i);
    assert(without_sheet(sheets, request.sheet_name@) =~= sheets.take(i) + sheets.skip(i + 1));
}

/// A sheet is edited exactly where it is there and something is to be set: a name,
/// a file, both coordinates, or width and height.
pub proof fn law_sheet_is_edited_exactly_where(
    sheets: Seq<SheetView>,
    request: EditSheetRequest,
)
    ensures
        edit_sheet_refusal(sheets, request) is None <==> {
            &&& exists|i: int| is_first_sheet(sheets, request.sheet_name@, i)
            &&& request.new_name is Some || request.new_file is Some || (request.x is Some
                && request.y is Some) || (request.width is Some && request.height is Some)
        },
{
    match sheet_named(sheets, request.sheet_name@, 0) {
        Some(i) => {
            law_first_sheet_is_found(sheets, request.sheet_name@, i);
        },
        None => {
            assert forall|j: int| !is_first_sheet(sheets, request.sheet_name@, j) by {
                law_first_sheet_is_found(sheets, request.sheet_name@, j);
            }
        },
    }
}

/// The place of a field in a report.
pub open spec fn sheet_field_rank(field: SheetField) -> int {
    match field {
        SheetField::Name => 0,
        SheetField::File => 1,
        SheetField::Position => 2,
        SheetField::Size => 3,
    }
}

/// An edit of a sheet reports as requested the fields that were given, and as
/// changed those in which the sheet is to differ from what it was, each once and
/// in one order.
pub proof fn law_sheet_fields_are_reported(sheet: SheetView, request: EditSheetRequest)
    ensures
        ({
            let requested = requested_sheet_fields(request);
            let moved = request.x is Some && request.y is Some;
            let resized = request.width is Some && request.height is Some;
            &&& requested.contains(SheetField::Name) <==> request.new_name is Some
            &&& requested.contains(SheetField::File) <==> request.new_file is Some
            &&& requested.contains(SheetField::Position) <==> moved
            &&& requested.contains(SheetField::Size) <==> resized
            &&& forall|a: int, b: int|
                0 <= a < b < requested.len() ==> sheet_field_rank(#[trigger] requested[a])
                    < sheet_field_rank(#[trigger] requested[b])
        }),
        ({
            let changed = changed_sheet_fields(sheet, request);
            let moved = request.x is Some && request.y is Some;
            let resized = request.width is Some && request.height is Some;
            &&& changed.contains(SheetField::Name) <==> request.new_name is Some
                && request.new_name->0@ != sheet.name
            &&& changed.contains(SheetField::File) <==> request.new_file is Some
                && request.new_file->0@ != sheet.file
            &&& changed.contains(SheetField::Position) <==> moved && (request.x->0 != sheet.x
                || request.y->0 != sheet.y)
            &&& changed.contains(SheetField::Size) <==> resized && (request.width->0
                != sheet.width || request.height->0 != sheet.height)
            &&& forall|a: int, b: int|
                0 <= a < b < changed.len() ==> sheet_field_rank(#[trigger] changed[a])
                    < sheet_field_rank(#[trigger] changed[b])
        }),
{
    lemma_sheet_fields(
        request.new_name is Some,
        request.new_file is Some,
        request.x is Some && request.y is Some,
        request.width is Some && request.height is Some,
    );
    let after = edited_sheet(sheet, request);
    lemma_sheet_fields(
        after.name != sheet.name,
        after.file != sheet.file,
        after.x != sheet.x || after.y != sheet.y,
        after.width != sheet.width || after.height != sheet.height,
    );
}

proof fn lemma_sheet_fields(a: bool, b: bool, c: bool, d: bool)
    ensures
        ({
            let all = field_if(a, SheetField::Name) + field_if(b, SheetField::File) + field_if(
                c,
                SheetField::Position,
            ) + field_if(d, SheetField::Size);
            &&& all.contains(SheetField::Name) <==> a
            &&& all.contains(SheetField::File) <==> b
            &&& all.contains(SheetField::Position) <==> c
            &&& all.contains(SheetField::Size) <==> d
            &&& forall|m: int, n: int|
                0 <= m < n < all.len() ==> sheet_field_rank(#[trigger] all[m])
                    < sheet_field_rank(#[trigger] all[n])
        }),
{
    let s = field_if(a, SheetField::Name);
    let t = s + field_if(b, SheetField::File);
    let u = t + field_if(c, SheetField::Position);
    let all = u + field_if(d, SheetField::Size);
    if a {
        assert(all[0] == SheetField::Name);
    }
    if b {
        assert(all[s.len() as int] == SheetField::File);
    }
    if c {
        assert(all[t.len() as int] == SheetField::Position);
    }
    if d {
        assert(all[u.len() as int] == SheetField::Size);
    }
}

/// The page is the numeral of one more than the highest page in use: than 1, or
/// than the highest page that a sheet has.
pub open spec fn is_next_page(sheets: Seq<SheetView>, page: Seq<char>) -> bool {
    &&& u32_of(page) is Some
    &&& u32_of(page)->0 >= 2
    &&& forall|i: int|
        0 <= i < sheets.len() && (#[trigger] sheets[i]).page is Some && u32_of(
            sheets[i].page->0,
        ) is Some ==> u32_of(sheets[i].page->0)->0 < u32_of(page)->0
    &&& u32_of(page)->0 == 2 || exists|i: int|
        0 <= i < sheets.len() && (#[trigger] sheets[i]).page is Some && u32_of(
            sheets[i].page->0,
        ) is Some && u32_of(sheets[i].page->0)->0 + 1 == u32_of(page)->0
}

/// A new sheet has the name and the file of the request, and where the request
/// gives no name it is called `Sheet`. It stands where the request says, or else
/// 50 mm across and 50 mm down; it is as wide and as high as the request says, or
/// else 80 mm wide and 50 mm high. Its page is the next one, and its child lies in
/// the directory of the schematic.
pub proof fn law_new_sheet_is_the_requested(sheets: Seq<SheetView>, request: AddSheetRequest)
    requires
        max_page(sheets) < u32::MAX,
    ensures
        ({
            let sheet = requested_sheet(sheets, request);
            &&& request.sheet_name is Some ==> sheet.name == request.sheet_name->0@
            &&& request.sheet_name is None ==> sheet.name == "Sheet"@
            &&& sheet.file == request.sheet_file@
            &&& request.x is Some ==> sheet.x == request.x->0
            &&& request.x is None ==> sheet.x == 50_000_000_000_000
            &&& request.y is Some ==> sheet.y == request.y->0
            &&& request.y is None ==> sheet.y == 50_000_000_000_000
            &&& request.width is Some ==> sheet.width == request.width->0
            &&& request.width is None ==> sheet.width == 80_000_000_000_000
            &&& request.height is Some ==> sheet.height == request.height->0
            &&& request.height is None ==> sheet.height == 50_000_000_000_000
            &&& is_next_page(sheets, sheet.page)
            &&& sheet.child_path == joined(directory_of(request.schematic@), request.sheet_file@)
        }),
{
    lemma_next_page(sheets);
}

proof fn lemma_next_page(sheets: Seq<SheetView>)
    requires
        max_page(sheets) < u32::MAX,
    ensures
        is_next_page(sheets, next_page_text(sheets)),
{
    law_highest_page_is_in_use(sheets);
    law_page_numeral_reads_back((max_page(sheets) + 1) as u32);
}

/// A copy has the name and the file of the request, the size of the sheet that is
/// copied, and stands 20 mm further across and 20 mm further down. Its page is the
/// next one, and its child lies in the directory of the schematic.
pub proof fn law_copy_is_the_requested(
    sheets: Seq<SheetView>,
    request: DuplicateRequest,
    i: int,
)
    requires
        max_page(sheets) < u32::MAX,
        is_first_sheet(sheets, request.source_name@, i),
    ensures
        ({
            let copy = copied_sheet(sheets, request);
            &&& copy.name == request.new_name@
            &&& copy.file == request.new_file@
            &&& copy.x == sheets[i].x + 20_000_000_000_000
            &&& copy.y == sheets[i].y + 20_000_000_000_000
            &&& copy.width == sheets[i].width
            &&& copy.height == sheets[i].height
            &&& is_next_page(sheets, copy.page)
            &&& copy.child_path == joined(directory_of(request.schematic@), request.new_file@)
        }),
{
    law_first_sheet_is_found(sheets, request.source_name@, i);
    lemma_next_page(sheets);
}

/// A new sheet is accepted exactly where its file is a sheet file in a directory
/// that is there and is not the schematic itself, no sheet of the schematic has
/// the name that the new one is to have, and what is at the path of the child, if
/// anything, is a file.
pub proof fn law_new_sheet_is_accepted_exactly_where(
    sheets: Seq<SheetView>,
    request: AddSheetRequest,
    directory_exists: bool,
    child: OnDisk,
)
    ensures
        ({
            let path = joined(directory_of(request.schematic@), request.sheet_file@);
            sheet_file_refusal(request, directory_exists) is None <==> is_sheet_file(
                request.sheet_file@,
            ) && directory_exists && !is_same_path(path, request.schematic@)
        }),
        ({
            let name = match request.sheet_name {
                Some(name) => name@,
                None => "Sheet"@,
            };
            add_sheet_refusal(sheets, request, child) is None <==> child != OnDisk::Other
                && forall|i: int| 0 <= i < sheets.len() ==> (#[trigger] sheets[i]).name != name
        }),
{
    law_first_sheet_is_found(sheets, request.name(), 0);
}

/// A copy is accepted exactly where no sheet has its name, the sheet to copy is
/// there, the new file is a sheet file in a directory that is there, nothing is at
/// its path yet, and the file to copy is there.
pub proof fn law_copy_is_accepted_exactly_where(
    sheets: Seq<SheetView>,
    request: DuplicateRequest,
    disk: DuplicateOnDisk,
)
    ensures
        duplicate_refusal(sheets, request, disk) is None <==> {
            &&& forall|i: int|
                0 <= i < sheets.len() ==> (#[trigger] sheets[i]).name != request.new_name@
            &&& exists|i: int|
                0 <= i < sheets.len() && (#[trigger] sheets[i]).name == request.source_name@
            &&& is_sheet_file(request.new_file@)
            &&& disk.directory_exists
            &&& !disk.new_exists
            &&& disk.source_exists
        },
{
    law_first_sheet_is_found(sheets, request.new_name@, 0);
    law_first_sheet_is_found(sheets, request.source_name@, 0);
}

/// The change turns what a file holds into something else.
pub open spec fn is_replacement(
    change: TransitionView,
    path: Seq<char>,
    before: Seq<char>,
    after: Seq<char>,
) -> bool {
    change matches TransitionView::Replace { path: p, before: b, after: a } && p == path && b
        == before && a == after
}

/// The change makes a new file.
pub open spec fn is_creation(
    change: TransitionView,
    path: Seq<char>,
    content: Seq<char>,
) -> bool {
    change matches TransitionView::Create { path: p, content: c } && p == path && c == content
}

/// Putting a sheet into its schematic writes the schematic first. A child that is
/// not there yet is created; one that is there is written only where symbols of it
/// were given an instance path, and the count is that of these symbols.
pub proof fn law_new_sheet_writes_parent_and_child(
    parent_path: Seq<char>,
    parent_before: Seq<char>,
    parent_after: Seq<char>,
    child_path: Seq<char>,
    child: ChildDocument,
)
    ensures
        ({
            let changes = new_sheet_transitions(
                parent_path,
                parent_before,
                parent_after,
                child_path,
                child,
            );
            &&& changes.len() >= 1
            &&& is_replacement(changes[0], parent_path, parent_before, parent_after)
            &&& match child {
                ChildDocument::Blank(text) => changes.len() == 2 && is_creation(
                    changes[1],
                    child_path,
                    text@,
                ) && patched_count(child) == 0,
                ChildDocument::Existing { before, linked } => match linked {
                    Some(document) => changes.len() == 2 && is_replacement(
                        changes[1],
                        child_path,
                        before@,
                        document.text@,
                    ) && patched_count(child) == document.patched,
                    None => changes.len() == 1 && patched_count(child) == 0,
                },
            }
        }),
{
}

/// Putting a copy into its schematic writes the schematic and creates the child of
/// the copy, which holds the copied text, with the instance path where symbols
/// needed it.
pub proof fn law_copy_writes_parent_and_child(
    parent_path: Seq<char>,
    parent_before: Seq<char>,
    parent_after: Seq<char>,
    new_child: Seq<char>,
    copy: Seq<char>,
    linked: Option<PatchedDocument>,
)
    ensures
        ({
            let changes = copied_sheet_transitions(
                parent_path,
                parent_before,
                parent_after,
                new_child,
                copy,
                linked,
            );
            &&& changes.len() == 2
            &&& is_replacement(changes[0], parent_path, parent_before, parent_after)
            &&& linked is None ==> is_creation(changes[1], new_child, copy)
            &&& linked is Some ==> is_creation(changes[1], new_child, linked->0.text@)
        }),
{
}

/// The instance path of a root is a slash and its UUID; that of a sheet is the
/// path of its schematic, a slash and the UUID of the sheet.
pub proof fn law_instance_paths_end_in_the_uuid(prefix: Seq<char>, uuid: Seq<char>)
    ensures
        root_instance_path(uuid).len() == uuid.len() + 1,
        root_instance_path(uuid)[0] == '/',
        root_instance_path(uuid).skip(1) == uuid,
        sheet_instance_path(prefix, uuid).len() == prefix.len() + 1 + uuid.len(),
        sheet_instance_path(prefix, uuid).take(prefix.len() as int) == prefix,
        sheet_instance_path(prefix, uuid)[prefix.len() as int] == '/',
        sheet_instance_path(prefix, uuid).skip(prefix.len() as int + 1) == uuid,
{
    reveal_strlit("/");
    assert(root_instance_path(uuid).skip(1) =~= uuid);
    assert(sheet_instance_path(prefix, uuid).take(prefix.len() as int) =~= prefix);
    assert(sheet_instance_path(prefix, uuid).skip(prefix.len() as int + 1) =~= uuid);
}

/// A request to add a pin is refused for its first fault: its type, then its side,
/// then a sheet that is not there, then a pin of that name that is, then a position
/// off the edge.
pub proof fn law_added_pin_is_refused_for_its_first_fault(
    sheets: Seq<SheetView>,
    request: AddPinRequest,
    i: int,
    k: int,
)
    ensures
        ({
            let refusal = add_pin_refusal(sheets, request);
            let side = match request.side {
                Some(side) => side@,
                None => "right"@,
            };
            let type_ok = is_pin_type(request.pin_type@);
            let side_ok = is_side(side);
            &&& !type_ok ==> refusal == Some(
                RefusalView::Message(invalid_pin_type_text(request.pin_type@)),
            )
            &&& type_ok && !side_ok ==> refusal == Some(
                RefusalView::InvalidArgument { argument: "side"@, reason: not_an_edge_text(side) },
            )
            &&& type_ok && side_ok && is_without_sheet(sheets, request.sheet_name@) ==> refusal
                == Some(RefusalView::Message(sheet_not_found_text(request.sheet_name@)))
            &&& type_ok && side_ok && is_first_sheet(sheets, request.sheet_name@, i) && 0 <= k
                < sheets[i].pins.len() && sheets[i].pins[k].name == request.pin_name@ ==> refusal
                == Some(
                RefusalView::Message(pin_exists_text(request.sheet_name@, request.pin_name@)),
            )
            &&& type_ok && side_ok && is_first_sheet(sheets, request.sheet_name@, i)
                && is_without_pin(sheets[i].pins, request.pin_name@) && request.side is Some
                ==> refusal == edge_refusal(
                box_of(sheets[i]),
                request.sheet_name@,
                side,
                request.x as int,
                request.y as int,
            )
        }),
{
    lemma_side_names();
    law_first_sheet_is_found(sheets, request.sheet_name@, i);
    if is_first_sheet(sheets, request.sheet_name@, i) {
        law_first_pin_is_found(sheets[i].pins, request.pin_name@, 0);
    }
}

/// No sheet has that name.
pub open spec fn is_without_sheet(sheets: Seq<SheetView>, name: Seq<char>) -> bool {
    forall|j: int| 0 <= j < sheets.len() ==> (#[trigger] sheets[j]).name != name
}

/// No pin has that name.
pub open spec fn is_without_pin(pins: Seq<PinView>, name: Seq<char>) -> bool {
    forall|j: int| 0 <= j < pins.len() ==> (#[trigger] pins[j]).name != name
}

/// A request to edit a pin is refused for its first fault: its type, then its
/// side, then a sheet that is not there, then a pin that is not, then a position
/// off the edge, then that nothing is to be set.
pub proof fn law_edited_pin_is_refused_for_its_first_fault(
    sheets: Seq<SheetView>,
    request: EditPinRequest,
    i: int,
    k: int,
)
    ensures
        ({
            let refusal = edit_pin_refusal(sheets, request);
            let type_ok = request.pin_type is Some ==> is_pin_type(request.pin_type->0@);
            let side_ok = request.side is Some ==> is_side(request.side->0@);
            let sound = type_ok && side_ok;
            let found = is_first_sheet(sheets, request.sheet_name@, i);
            &&& !type_ok ==> refusal == Some(
                RefusalView::Message(invalid_pin_type_text(request.pin_type->0@)),
            )
            &&& type_ok && !side_ok ==> refusal == Some(
                RefusalView::InvalidArgument {
                    argument: "side"@,
                    reason: not_an_edge_text(request.side->0@),
                },
            )
            &&& sound && is_without_sheet(sheets, request.sheet_name@) ==> refusal == Some(
                RefusalView::Message(sheet_not_found_text(request.sheet_name@)),
            )
            &&& sound && found && is_without_pin(sheets[i].pins, request.pin_name@) ==> refusal
                == Some(
                RefusalView::Message(pin_not_found_text(request.pin_name@, request.sheet_name@)),
            )
            &&& sound && found && is_first_pin(sheets[i].pins, request.pin_name@, k) ==> {
                let after = edited_pin(sheets[i].pins[k], request);
                let nothing = request.new_name is None && request.pin_type is None && (request.x
                    is None || request.y is None) && request.side is None;
                &&& request.side is Some ==> refusal == edge_refusal(
                    box_of(sheets[i]),
                    request.sheet_name@,
                    request.side->0@,
                    after.x,
                    after.y,
                )
                &&& nothing ==> refusal == Some(
                    RefusalView::Message(
                        "No fields to change — provide at least one of: new_name, pin_type, side, x+y"@,
                    ),
                )
            }
        }),
{
    lemma_side_names();
    law_first_sheet_is_found(sheets, request.sheet_name@, i);
    if is_first_sheet(sheets, request.sheet_name@, i) {
        law_first_pin_is_found(sheets[i].pins, request.pin_name@, k);
    }
}

/// A request to delete a pin, or to edit a sheet, is refused first where the sheet
/// is not there, and then where the pin is not, or where nothing is to be set.
pub proof fn law_missing_sheet_is_the_first_fault(
    sheets: Seq<SheetView>,
    request: EditSheetRequest,
    pin_name: Seq<char>,
    i: int,
)
    ensures
        ({
            let name = request.sheet_name@;
            let deleted = delete_pin_refusal(sheets, name, pin_name);
            let edited = edit_sheet_refusal(sheets, request);
            let absent = Some(RefusalView::Message(sheet_not_found_text(name)));
            let nothing = request.new_name is None && request.new_file is None && (request.x is None
                || request.y is None) && (request.width is None || request.height is None);
            &&& is_without_sheet(sheets, name) ==> deleted == absent && edited == absent
            &&& is_first_sheet(sheets, name, i) && is_without_pin(sheets[i].pins, pin_name)
                ==> deleted == Some(RefusalView::Message(pin_not_found_text(pin_name, name)))
            &&& is_first_sheet(sheets, name, i) && nothing ==> edited == Some(
                RefusalView::Message(
                    "No fields to change — provide at least one of: new_name, new_file, x+y, width+height"@,
                ),
            )
        }),
{
    law_first_sheet_is_found(sheets, request.sheet_name@, i);
    if is_first_sheet(sheets, request.sheet_name@, i) {
        law_first_pin_is_found(sheets[i].pins, pin_name, 0);
    }
}

/// A new sheet is refused for its first fault: the form of its file name, then a
/// directory that is not there, then that it is its own parent; and, once the
/// schematic is read, a name that is taken, then something at the path of the child
/// that is no file.
pub proof fn law_new_sheet_is_refused_for_its_first_fault(
    sheets: Seq<SheetView>,
    request: AddSheetRequest,
    directory_exists: bool,
    child: OnDisk,
    i: int,
)
    ensures
        ({
            let early = sheet_file_refusal(request, directory_exists);
            let is_file = is_sheet_file(request.sheet_file@);
            let path = joined(directory_of(request.schematic@), request.sheet_file@);
            &&& !is_file ==> early == Some(
                RefusalView::Message(
                    "sheet_file must be a relative .kicad_sch path without parent traversal"@,
                ),
            )
            &&& is_file && !directory_exists ==> early == Some(
                RefusalView::Message("The child sheet directory does not exist"@),
            )
            &&& is_file && directory_exists && is_same_path(path, request.schematic@) ==> early
                == Some(
                RefusalView::Message("A hierarchical sheet cannot reference its parent file"@),
            )
        }),
        ({
            let late = add_sheet_refusal(sheets, request, child);
            let name = match request.sheet_name {
                Some(name) => name@,
                None => "Sheet"@,
            };
            &&& 0 <= i < sheets.len() && sheets[i].name == name ==> late == Some(
                RefusalView::Message(name_taken_text(name)),
            )
            &&& is_without_sheet(sheets, name) && child == OnDisk::Other ==> late == Some(
                RefusalView::Message("The child schematic path exists but is not a regular file"@),
            )
        }),
{
    law_first_sheet_is_found(sheets, request.name(), i);
}

/// A copy is refused for its first fault: a name that is taken, then a sheet to
/// copy that is not there, then the form of the file name or its directory, then a
/// file that is there already, then a file to copy that is not.
pub proof fn law_copy_is_refused_for_its_first_fault(
    sheets: Seq<SheetView>,
    request: DuplicateRequest,
    disk: DuplicateOnDisk,
    i: int,
)
    ensures
        ({
            let refusal = duplicate_refusal(sheets, request, disk);
            let fresh = is_without_sheet(sheets, request.new_name@);
            let found = fresh && is_first_sheet(sheets, request.source_name@, i);
            let placed = is_sheet_file(request.new_file@) && disk.directory_exists;
            &&& !fresh ==> refusal == Some(
                RefusalView::Message(copy_name_taken_text(request.new_name@)),
            )
            &&& fresh && is_without_sheet(sheets, request.source_name@) ==> refusal == Some(
                RefusalView::Message(sheet_not_found_text(request.source_name@)),
            )
            &&& found && !placed ==> refusal == Some(
                RefusalView::Message(
                    "new_file must be a relative .kicad_sch path in an existing project directory"@,
                ),
            )
            &&& found && placed && disk.new_exists ==> refusal == Some(
                RefusalView::Message(copy_file_taken_text(request.new_file@)),
            )
            &&& found && placed && !disk.new_exists && !disk.source_exists ==> refusal == Some(
                RefusalView::Message(source_missing_text(sheets[i].file)),
            )
        }),
{
    law_first_sheet_is_found(sheets, request.new_name@, i);
    law_first_sheet_is_found(sheets, request.source_name@, i);
}

} // verus!
