//! What an import gives: which labels get a pin, where on the edge each pin is put,
//! and when an import is refused.

use crate::geometry::{
    box_of, edge_capacity, edge_is_full_text, is_on_edge, is_side, lemma_side_names,
    not_an_edge_text, side_rotation, SheetBox,
};
use crate::import::{
    asks_for_pin, base_slot, child_missing_text, distance_along, farthest_slot, first_overflow,
    has_room_below, import_plan, import_refusal, import_request_refusal, import_source_path,
    law_import_fits_within_the_capacity, lemma_first_overflow, may_be_on, new_labels,
    occupied_slots, planned_pins, skipped_names, slot_pin, slots_before, start_slot,
    with_imported_pins, ImportRequest,
};
use crate::model::{pin_named, sheet_named, LabelView, PinView, SheetView};
use crate::paths::{directory_of, joined};
use crate::refusal::{sheet_not_found_text, RefusalView};
use crate::sheet_laws::{
    is_first_sheet, is_without_sheet, law_capacity_is_what_fits, law_first_pin_is_found,
    law_first_sheet_is_found, same_but_pins_of,
};
use vstd::prelude::*;

verus! {

/// Some pin of the sheet has that name.
pub open spec fn has_pin(pins: Seq<PinView>, name: Seq<char>) -> bool {
    exists|k: int| 0 <= k < pins.len() && (#[trigger] pins[k]).name == name
}

/// Some label has that name.
pub open spec fn has_label(labels: Seq<LabelView>, name: Seq<char>) -> bool {
    exists|k: int| 0 <= k < labels.len() && (#[trigger] labels[k]).text == name
}

/// One more label after the others is skipped where the sheet has a pin of that
/// name or an earlier label has the name, and is imported otherwise; what becomes
/// of the others does not change. Without labels nothing is imported or skipped.
pub proof fn law_each_label_is_judged_in_turn(
    pins: Seq<PinView>,
    labels: Seq<LabelView>,
    label: LabelView,
)
    ensures
        new_labels(pins, seq![]).len() == 0,
        skipped_names(pins, seq![]).len() == 0,
        ({
            let taken = has_pin(pins, label.text) || has_label(labels, label.text);
            let more = labels.push(label);
            &&& new_labels(pins, more) == (if taken {
                new_labels(pins, labels)
            } else {
                new_labels(pins, labels).push(label)
            })
            &&& skipped_names(pins, more) == (if taken {
                skipped_names(pins, labels).push(label.text)
            } else {
                skipped_names(pins, labels)
            })
        }),
{
    let more = labels.push(label);
    let last = labels.len() as int;
    assert(more.drop_last() =~= labels);
    assert(more.last() == label);
    law_first_pin_is_found(pins, label.text, 0);
    assert(pin_named(pins, label.text, 0) is None <==> !has_pin(pins, label.text));
    assert((forall|j: int| 0 <= j < last ==> (#[trigger] more[j]).text != label.text)
        <==> !has_label(labels, label.text)) by {
        if has_label(labels, label.text) {
            let k = choose|k: int| 0 <= k < labels.len() && (#[trigger] labels[k]).text
                == label.text;
            assert(more[k].text == label.text);
        } else {
            assert forall|j: int| 0 <= j < last implies (#[trigger] more[j]).text
                != label.text by {
                assert(labels[j] == more[j]);
            }
        }
    }
    assert(asks_for_pin(pins, more, last) <==> !has_pin(pins, label.text) && !has_label(
        labels,
        label.text,
    ));
}

/// The pin counts for the edge: its rotation is that of the edge, or that of none
/// of the four.
pub open spec fn counts_for(pin: PinView, side: Seq<char>) -> bool {
    ||| pin.rotation is None
    ||| pin.rotation == side_rotation(side)
    ||| pin.rotation->0 != 0 && pin.rotation->0 != 90_000_000_000_000 && pin.rotation->0
        != 180_000_000_000_000 && pin.rotation->0 != 270_000_000_000_000
}

proof fn lemma_counts_for(pin: PinView, side: Seq<char>)
    requires
        is_side(side),
    ensures
        may_be_on(pin, side) <==> counts_for(pin, side),
{
    lemma_side_names();
}

/// One more pin takes one more slot of an edge where it counts for that edge, and
/// none otherwise; without pins no slot is taken.
pub proof fn law_each_pin_takes_a_slot(pins: Seq<PinView>, side: Seq<char>, pin: PinView)
    requires
        is_side(side),
    ensures
        occupied_slots(seq![], side) == 0,
        occupied_slots(pins.push(pin), side) == occupied_slots(pins, side) + if counts_for(
            pin,
            side,
        ) {
            1int
        } else {
            0int
        },
{
    lemma_counts_for(pin, side);
    assert(pins.push(pin).drop_last() =~= pins);
}

/// How far a position lies from the corner at which an edge begins: down from the
/// top on a right or left edge, across from the left on a top or bottom one.
pub open spec fn from_corner(b: SheetBox, side: Seq<char>, pin: PinView) -> int {
    if side == "right"@ || side == "left"@ {
        pin.y - b.y
    } else {
        pin.x - b.x
    }
}

/// How far an edge runs.
pub open spec fn side_length(b: SheetBox, side: Seq<char>) -> int {
    if side == "right"@ || side == "left"@ {
        b.height as int
    } else {
        b.width as int
    }
}

/// `slot` is the first slot after which nothing that counts for the edge stands:
/// there is one slot for each such pin, the next slot lies past all of them, and
/// no earlier slot would do.
pub open spec fn is_free_from(b: SheetBox, side: Seq<char>, pins: Seq<PinView>, slot: nat) -> bool {
    &&& occupied_slots(pins, side) <= slot
    &&& forall|j: int|
        0 <= j < pins.len() && counts_for(#[trigger] pins[j], side) ==> from_corner(
            b,
            side,
            pins[j],
        ) < 2_540_000_000_000 * (slot + 1)
    &&& slot == occupied_slots(pins, side) || exists|j: int|
        0 <= j < pins.len() && counts_for(#[trigger] pins[j], side) && from_corner(
            b,
            side,
            pins[j],
        ) >= 2_540_000_000_000 * slot
}

proof fn lemma_from_corner(b: SheetBox, side: Seq<char>, pin: PinView)
    requires
        is_side(side),
    ensures
        distance_along(b, side, pin) == from_corner(b, side, pin),
        from_corner(b, side, pin) < 2_540_000_000_000 * (slots_before(b, side, pin) + 1),
        slots_before(b, side, pin) > 0 ==> from_corner(b, side, pin) >= 2_540_000_000_000
            * slots_before(b, side, pin),
{
    lemma_side_names();
}

proof fn lemma_farthest(b: SheetBox, side: Seq<char>, pins: Seq<PinView>)
    requires
        is_side(side),
    ensures
        forall|j: int|
            0 <= j < pins.len() && counts_for(#[trigger] pins[j], side) ==> from_corner(
                b,
                side,
                pins[j],
            ) < 2_540_000_000_000 * (farthest_slot(b, side, pins) + 1),
        farthest_slot(b, side, pins) == 0 || exists|j: int|
            0 <= j < pins.len() && counts_for(#[trigger] pins[j], side) && from_corner(
                b,
                side,
                pins[j],
            ) >= 2_540_000_000_000 * farthest_slot(b, side, pins),
    decreases pins.len(),
{
    if pins.len() > 0 {
        let shorter = pins.drop_last();
        let last = pins.len() - 1;
        let before = farthest_slot(b, side, shorter);
        let all = farthest_slot(b, side, pins);
        lemma_farthest(b, side, shorter);
        lemma_counts_for(pins.last(), side);
        lemma_from_corner(b, side, pins.last());
        assert(before <= all);
        assert forall|j: int|
            0 <= j < pins.len() && counts_for(#[trigger] pins[j], side) implies from_corner(
            b,
            side,
            pins[j],
        ) < 2_540_000_000_000 * (all + 1) by {
            if j < last {
                assert(shorter[j] == pins[j]);
                assert(counts_for(shorter[j], side));
            }
        }
        if all > 0 {
            if all == before {
                let j = choose|j: int|
                    0 <= j < shorter.len() && counts_for(#[trigger] shorter[j], side)
                        && from_corner(b, side, shorter[j]) >= 2_540_000_000_000 * before;
                assert(pins[j] == shorter[j]);
                assert(counts_for(pins[j], side));
            } else {
                assert(counts_for(pins[last], side));
            }
        }
    }
}

/// There is a slot after which nothing that counts for the edge stands, and only
/// one that is the first such.
pub proof fn law_an_edge_is_free_from_some_slot(
    b: SheetBox,
    side: Seq<char>,
    pins: Seq<PinView>,
    slot: nat,
)
    requires
        is_side(side),
    ensures
        is_free_from(b, side, pins, slot) <==> slot == base_slot(b, side, pins),
{
    lemma_farthest(b, side, pins);
    let base = base_slot(b, side, pins);
    let occupied = occupied_slots(pins, side);
    let farthest = farthest_slot(b, side, pins);
    assert(is_free_from(b, side, pins, base)) by {
        if base != occupied {
            let j = choose|j: int|
                0 <= j < pins.len() && counts_for(#[trigger] pins[j], side) && from_corner(
                    b,
                    side,
                    pins[j],
                ) >= 2_540_000_000_000 * farthest;
            assert(counts_for(pins[j], side));
        }
    }
    if is_free_from(b, side, pins, slot) && slot != base {
        if slot < base {
            let j = choose|j: int|
                0 <= j < pins.len() && counts_for(#[trigger] pins[j], side) && from_corner(
                    b,
                    side,
                    pins[j],
                ) >= 2_540_000_000_000 * base;
            assert(counts_for(pins[j], side));
            assert(from_corner(b, side, pins[j]) < 2_540_000_000_000 * (slot + 1));
        } else {
            let j = choose|j: int|
                0 <= j < pins.len() && counts_for(#[trigger] pins[j], side) && from_corner(
                    b,
                    side,
                    pins[j],
                ) >= 2_540_000_000_000 * slot;
            assert(counts_for(pins[j], side));
            assert(from_corner(b, side, pins[j]) < 2_540_000_000_000 * (base + 1));
        }
    }
}

/// The pin that an import plans for a label has the name of the label. It is of
/// the type that the label's shape names, where that is a type of a pin, and
/// passive otherwise. It is turned to the edge, and stands on its line.
pub proof fn law_planned_pin_is_that_of_its_label(
    b: SheetBox,
    side: Seq<char>,
    pins: Seq<PinView>,
    labels: Seq<LabelView>,
    n: int,
)
    requires
        is_side(side),
        0 <= n < new_labels(pins, labels).len(),
    ensures
        planned_pins(b, side, pins, labels).len() == new_labels(pins, labels).len(),
        ({
            let label = new_labels(pins, labels)[n];
            let pin = planned_pins(b, side, pins, labels)[n];
            let types = seq![
                "input"@,
                "output"@,
                "bidirectional"@,
                "tri_state"@,
                "passive"@,
            ];
            &&& pin.name == label.text
            &&& label.shape is Some && types.contains(label.shape->0) ==> pin.pin_type
                == label.shape->0
            &&& label.shape is None || !types.contains(label.shape->0) ==> pin.pin_type
                == "passive"@
            &&& side == "right"@ ==> pin.x == b.x + b.width && pin.rotation == Some(0i64)
            &&& side == "top"@ ==> pin.y == b.y && pin.rotation == Some(90_000_000_000_000i64)
            &&& side == "left"@ ==> pin.x == b.x && pin.rotation == Some(180_000_000_000_000i64)
            &&& side == "bottom"@ ==> pin.y == b.y + b.height && pin.rotation == Some(
                270_000_000_000_000i64,
            )
        }),
{
    lemma_side_names();
    let types = seq!["input"@, "output"@, "bidirectional"@, "tri_state"@, "passive"@];
    assert(types[0] == "input"@ && types[1] == "output"@ && types[2] == "bidirectional"@
        && types[3] == "tri_state"@ && types[4] == "passive"@);
}

/// The planned pins stand 2.54 mm apart, one in each slot, from the first slot
/// that nothing on the edge stands in or past. Where that would run past the
/// corner, they come after as many slots as pins count for the edge.
pub proof fn law_planned_pins_follow_the_others(
    b: SheetBox,
    side: Seq<char>,
    pins: Seq<PinView>,
    labels: Seq<LabelView>,
    free: nat,
    n: int,
)
    requires
        is_side(side),
        is_free_from(b, side, pins, free),
        0 <= n < new_labels(pins, labels).len(),
    ensures
        ({
            let count = new_labels(pins, labels).len();
            let fits = 2_540_000_000_000 * (free + count) <= side_length(b, side) + 1_000_000;
            let start = if fits {
                free
            } else {
                occupied_slots(pins, side)
            };
            from_corner(b, side, planned_pins(b, side, pins, labels)[n]) == 2_540_000_000_000 * (
            start + n + 1)
        }),
{
    lemma_side_names();
    law_an_edge_is_free_from_some_slot(b, side, pins, free);
}

/// Only the sheet that an import names changes, and of it only the pins: those it
/// had are followed by the planned ones, which are planned for its own box, and
/// for the right edge where no edge is named.
pub proof fn law_import_adds_to_one_sheet(
    sheets: Seq<SheetView>,
    request: ImportRequest,
    labels: Seq<LabelView>,
    i: int,
)
    requires
        is_first_sheet(sheets, request.sheet_name@, i),
    ensures
        ({
            let after = with_imported_pins(sheets, request, labels);
            let side = match request.side {
                Some(side) => side@,
                None => "right"@,
            };
            let b = SheetBox {
                x: sheets[i].x,
                y: sheets[i].y,
                width: sheets[i].width,
                height: sheets[i].height,
            };
            &&& same_but_pins_of(sheets, after, i)
            &&& after[i].pins == sheets[i].pins + planned_pins(b, side, sheets[i].pins, labels)
            &&& import_plan(sheets, request, labels) == planned_pins(
                b,
                side,
                sheets[i].pins,
                labels,
            )
            &&& import_source_path(sheets, request) == joined(
                directory_of(request.schematic@),
                sheets[i].file,
            )
        }),
{
    law_first_sheet_is_found(sheets, request.sheet_name@, i);
}

/// An import is accepted exactly where the side, if one is named, is an edge, the
/// sheet is there, its child is there, and the edge holds the new pins beside
/// those that count for it, unless there are none to add.
pub proof fn law_import_is_accepted_exactly_where(
    sheets: Seq<SheetView>,
    request: ImportRequest,
    child: Option<Seq<LabelView>>,
)
    ensures
        import_refusal(sheets, request, child) is None <==> {
            let side = match request.side {
                Some(side) => side@,
                None => "right"@,
            };
            &&& is_side(side)
            &&& child is Some
            &&& exists|i: int|
                {
                    let count = new_labels(sheets[i].pins, child->0).len();
                    &&& #[trigger] is_first_sheet(sheets, request.sheet_name@, i)
                    &&& count == 0 || occupied_slots(sheets[i].pins, side) + count
                        <= edge_capacity(box_of(sheets[i]), side)
                }
        },
{
    lemma_side_names();
    let side = request.edge();
    let name = request.sheet_name@;
    match sheet_named(sheets, name, 0) {
        Some(i) => {
            law_first_sheet_is_found(sheets, name, i);
            assert forall|j: int| #[trigger] is_first_sheet(sheets, name, j) implies j == i by {
                law_first_sheet_is_found(sheets, name, j);
            }
            if is_side(side) && child is Some {
                law_import_fits_within_the_capacity(
                    box_of(sheets[i]),
                    side,
                    sheets[i].pins,
                    child->0,
                );
            }
        },
        None => {
            assert forall|j: int| !#[trigger] is_first_sheet(sheets, name, j) by {
                law_first_sheet_is_found(sheets, name, j);
            }
        },
    }
}

/// An import that the edge has no room for is refused by the name of the first
/// label that is left over once the edge is full: past as many new ones as the
/// edge still holds.
pub proof fn law_refused_import_names_the_first_left_over(
    sheets: Seq<SheetView>,
    request: ImportRequest,
    labels: Seq<LabelView>,
    i: int,
)
    requires
        is_first_sheet(sheets, request.sheet_name@, i),
        is_side(request.edge()),
        ({
            let count = new_labels(sheets[i].pins, labels).len();
            count > 0 && occupied_slots(sheets[i].pins, request.edge()) + count > edge_capacity(
                box_of(sheets[i]),
                request.edge(),
            )
        }),
    ensures
        ({
            let side = request.edge();
            let held = edge_capacity(box_of(sheets[i]), side);
            let occupied = occupied_slots(sheets[i].pins, side);
            let left_over = if occupied <= held {
                held - occupied
            } else {
                0
            };
            &&& 0 <= left_over < new_labels(sheets[i].pins, labels).len()
            &&& import_refusal(sheets, request, Some(labels)) == Some(
                RefusalView::Message(
                    edge_is_full_text(
                        box_of(sheets[i]),
                        request.sheet_name@,
                        side,
                        occupied,
                        new_labels(sheets[i].pins, labels)[left_over].text,
                    ),
                ),
            )
        }),
{
    lemma_side_names();
    let side = request.edge();
    let b = box_of(sheets[i]);
    let pins = sheets[i].pins;
    let all = new_labels(pins, labels);
    let count = all.len();
    let held = edge_capacity(b, side);
    let occupied = occupied_slots(pins, side);
    let planned = planned_pins(b, side, pins, labels);
    law_first_sheet_is_found(sheets, request.sheet_name@, i);
    law_import_fits_within_the_capacity(b, side, pins, labels);
    law_capacity_is_what_fits(b, side);
    lemma_first_overflow(b, side, planned, 0);
    let m = first_overflow(b, side, planned, 0)->0;
    let left_over = if occupied <= held {
        held - occupied
    } else {
        0
    };
    assert(!has_room_below(b, side, pins, count));
    assert(start_slot(b, side, pins, count) == occupied);
    assert forall|n: int| 0 <= n < count implies (is_on_edge(
        b,
        side,
        (#[trigger] planned[n]).x,
        planned[n].y,
    ) <==> occupied + n + 1 <= held) by {
        let slot = (occupied + n + 1) as nat;
        assert(planned[n] == slot_pin(b, side, slot, all[n]));
        assert(2_540_000_000_000 * slot <= side_length(b, side) + 1_000_000 <==> slot <= held);
    }
    assert(0 <= left_over < count);
    if m < left_over {
        assert(!is_on_edge(b, side, planned[m].x, planned[m].y));
    }
    if left_over < m {
        assert(is_on_edge(b, side, planned[left_over].x, planned[left_over].y));
    }
    assert(m == left_over);
    assert(planned[m].name == all[m].text);
}

/// An import is refused for its first fault: its side, then a sheet that is not
/// there, then a child that is not on disk.
pub proof fn law_import_is_refused_for_its_first_fault(
    sheets: Seq<SheetView>,
    request: ImportRequest,
    child: Option<Seq<LabelView>>,
    i: int,
)
    ensures
        ({
            let refusal = import_refusal(sheets, request, child);
            let side = match request.side {
                Some(side) => side@,
                None => "right"@,
            };
            let name = request.sheet_name@;
            &&& !is_side(side) ==> refusal == Some(
                RefusalView::InvalidArgument { argument: "side"@, reason: not_an_edge_text(side) },
            )
            &&& is_side(side) && is_without_sheet(sheets, name) ==> refusal == Some(
                RefusalView::Message(sheet_not_found_text(name)),
            )
            &&& is_side(side) && is_first_sheet(sheets, name, i) && child is None ==> refusal
                == Some(
                RefusalView::Message(
                    child_missing_text(
                        joined(directory_of(request.schematic@), sheets[i].file),
                    ),
                ),
            )
            &&& import_request_refusal(sheets, request) is None <==> is_side(side)
                && !is_without_sheet(sheets, name)
            &&& import_request_refusal(sheets, request) is Some ==> refusal
                == import_request_refusal(sheets, request)
        }),
{
    lemma_side_names();
    law_first_sheet_is_found(sheets, request.sheet_name@, i);
}

} // verus!
