//! Importing pins for the hierarchical labels of a child sheet.

use crate::geometry::{
    box_of, edge_capacity, edge_is_full_text, edge_of, ensure_pin_is_on_sheet_edge,
    is_allowed_pin_type, is_on_edge, is_pin_type, is_side, lemma_side_names, on_axis,
    rotation_side, sheet_pin_edge_is_full, sheet_pin_rotation_for, sheet_pin_side_for_rotation, side_rotation,
    SheetBox, SHEET_PIN_EDGE_TOLERANCE, SHEET_PIN_SPACING,
};
use crate::model::{
    find_pin, find_sheet, label_names, label_views, lemma_pin_named, names_of, pin_named, pin_names, pin_views,
    sheet_named, sheet_views, HierarchicalLabel, LabelView, PinView, Sheet, SheetPin, SheetView,
};
use crate::paths::{child_path, directory_of, joined};
use crate::pins::{
    pin_not_written_text, read_back_sheet_pin, sheet_not_written_text, side_refusal, with_pins,
};
use crate::refusal::{sheet_not_found, sheet_not_found_text, Refusal, RefusalView};
use crate::text::{same_text, texts};
use vstd::prelude::*;

verus! {

/// The pin may be on the edge `side`: its rotation selects that edge, or selects
/// none.
pub open spec fn may_be_on(pin: PinView, side: Seq<char>) -> bool {
    rotation_side(pin.rotation) is None || rotation_side(pin.rotation) == Some(side)
}

/// How many of the pins may be on the edge `side`.
pub open spec fn occupied_slots(pins: Seq<PinView>, side: Seq<char>) -> nat
    decreases pins.len(),
{
    if pins.len() == 0 {
        0
    } else {
        occupied_slots(pins.drop_last(), side) + if may_be_on(pins.last(), side) {
            1nat
        } else {
            0nat
        }
    }
}

/// The label at `k` asks for a pin: the sheet has none of that name, and no
/// earlier label has it.
pub open spec fn asks_for_pin(pins: Seq<PinView>, labels: Seq<LabelView>, k: int) -> bool {
    &&& pin_named(pins, labels[k].text, 0) is None
    &&& forall|j: int| 0 <= j < k ==> (#[trigger] labels[j]).text != labels[k].text
}

/// The labels that ask for a pin, in order.
pub open spec fn new_labels(pins: Seq<PinView>, labels: Seq<LabelView>) -> Seq<LabelView>
    decreases labels.len(),
{
    if labels.len() == 0 {
        seq![]
    } else {
        let before = new_labels(pins, labels.drop_last());
        if asks_for_pin(pins, labels, labels.len() - 1) {
            before.push(labels.last())
        } else {
            before
        }
    }
}

/// The names of the labels that ask for no pin, in order.
pub open spec fn skipped_names(pins: Seq<PinView>, labels: Seq<LabelView>) -> Seq<Seq<char>>
    decreases labels.len(),
{
    if labels.len() == 0 {
        seq![]
    } else {
        let before = skipped_names(pins, labels.drop_last());
        if asks_for_pin(pins, labels, labels.len() - 1) {
            before
        } else {
            before.push(labels.last().text)
        }
    }
}

/// The electrical type of a pin for a label: the label's shape where that is a
/// pin type, else passive.
pub open spec fn label_pin_type(label: LabelView) -> Seq<char> {
    match label.shape {
        Some(shape) => if is_pin_type(shape) {
            shape
        } else {
            "passive"@
        },
        None => "passive"@,
    }
}

/// The pin for a label in a slot of the edge `side`. Slots are counted from the
/// top or left corner, one spacing apart; the first is one spacing from it.
pub open spec fn slot_pin(
    b: SheetBox,
    side: Seq<char>,
    slot: nat,
    label: LabelView,
) -> PinView {
    let offset = SHEET_PIN_SPACING * slot;
    let e = edge_of(b, side)->0;
    let down = side == "right"@ || side == "left"@;
    PinView {
        name: label.text,
        pin_type: label_pin_type(label),
        x: if down {
            e.coordinate
        } else {
            b.x + offset
        },
        y: if down {
            b.y + offset
        } else {
            e.coordinate
        },
        rotation: side_rotation(side),
    }
}

/// How far an edge runs.
pub open spec fn edge_length(b: SheetBox, side: Seq<char>) -> int {
    edge_of(b, side)->0.span_end - edge_of(b, side)->0.span_start
}

/// How far along the edge `side` a pin stands, counted from the top or left
/// corner.
pub open spec fn distance_along(b: SheetBox, side: Seq<char>, pin: PinView) -> int {
    on_axis(edge_of(b, side)->0.span_axis, pin.x, pin.y) - edge_of(b, side)->0.span_start
}

/// How many whole spacings lie between the corner and a pin.
pub open spec fn slots_before(b: SheetBox, side: Seq<char>, pin: PinView) -> nat {
    let distance = distance_along(b, side, pin);
    if distance <= 0 {
        0
    } else {
        (distance / SHEET_PIN_SPACING as int) as nat
    }
}

pub open spec fn larger(a: nat, b: nat) -> nat {
    if a < b {
        b
    } else {
        a
    }
}

/// How many whole spacings lie between the corner and the farthest pin that may
/// be on the edge.
pub open spec fn farthest_slot(b: SheetBox, side: Seq<char>, pins: Seq<PinView>) -> nat
    decreases pins.len(),
{
    if pins.len() == 0 {
        0
    } else {
        let before = farthest_slot(b, side, pins.drop_last());
        if may_be_on(pins.last(), side) {
            larger(before, slots_before(b, side, pins.last()))
        } else {
            before
        }
    }
}

/// The last slot that has to be left free for the pins that may be on the edge:
/// one for each, and all up to the farthest.
pub open spec fn base_slot(b: SheetBox, side: Seq<char>, pins: Seq<PinView>) -> nat {
    larger(occupied_slots(pins, side), farthest_slot(b, side, pins))
}

/// The edge holds `count` more pins past all that may be on it.
pub open spec fn has_room_below(
    b: SheetBox,
    side: Seq<char>,
    pins: Seq<PinView>,
    count: nat,
) -> bool {
    SHEET_PIN_SPACING * (base_slot(b, side, pins) + count) <= edge_length(b, side)
        + SHEET_PIN_EDGE_TOLERANCE
}

/// The slot after which `count` new pins are put: past all that may be on the
/// edge where there is room, else after as many slots as there are such pins.
pub open spec fn start_slot(
    b: SheetBox,
    side: Seq<char>,
    pins: Seq<PinView>,
    count: nat,
) -> nat {
    if has_room_below(b, side, pins, count) {
        base_slot(b, side, pins)
    } else {
        occupied_slots(pins, side)
    }
}

/// The pins that an import plans: one for each label that asks for it, stacked
/// below the pins that may be on the edge.
pub open spec fn planned_pins(
    b: SheetBox,
    side: Seq<char>,
    pins: Seq<PinView>,
    labels: Seq<LabelView>,
) -> Seq<PinView> {
    let asked = new_labels(pins, labels);
    let start = start_slot(b, side, pins, asked.len());
    Seq::new(asked.len(), |n: int| slot_pin(b, side, (start + n + 1) as nat, asked[n]))
}

/// The first of the planned pins that is not on the edge.
pub open spec fn first_overflow(
    b: SheetBox,
    side: Seq<char>,
    planned: Seq<PinView>,
    from: int,
) -> Option<int>
    decreases planned.len() - from,
{
    if from >= planned.len() {
        None
    } else if !is_on_edge(b, side, planned[from].x, planned[from].y) {
        Some(from)
    } else {
        first_overflow(b, side, planned, from + 1)
    }
}

pub proof fn lemma_first_overflow(
    b: SheetBox,
    side: Seq<char>,
    planned: Seq<PinView>,
    from: int,
)
    requires
        0 <= from,
    ensures
        match first_overflow(b, side, planned, from) {
            Some(n) => from <= n < planned.len() && !is_on_edge(b, side, planned[n].x, planned[n].y)
                && forall|j: int|
                from <= j < n ==> is_on_edge(b, side, (#[trigger] planned[j]).x, planned[j].y),
            None => forall|j: int|
                from <= j < planned.len() ==> is_on_edge(
                    b,
                    side,
                    (#[trigger] planned[j]).x,
                    planned[j].y,
                ),
        },
    decreases planned.len() - from,
{
    if from < planned.len() && is_on_edge(b, side, planned[from].x, planned[from].y) {
        lemma_first_overflow(b, side, planned, from + 1);
    }
}

/// The pins that an import adds to a sheet, and the names it leaves out.
#[derive(Debug)]
pub struct ImportPlan {
    pub pins: Vec<SheetPin>,
    pub skipped: Vec<String>,
}

/// Count the pins that may be on the edge `side`.
pub fn count_occupied(pins: &Vec<SheetPin>, side: &str) -> (count: usize)
    ensures
        count == occupied_slots(pin_views(pins@), side@),
        count <= pins@.len(),
{
    let mut count: usize = 0;
    let mut i: usize = 0;
    assert(pin_views(pins@).take(0).len() == 0);
    while i < pins.len()
        invariant
            i <= pins@.len(),
            count <= i,
            count == occupied_slots(pin_views(pins@).take(i as int), side@),
        decreases pins@.len() - i,
    {
        let ghost all = pin_views(pins@);
        assert(all.take(i + 1).drop_last() =~= all.take(i as int));
        assert(all.take(i + 1).last() == pins@[i as int]@);
        let counts = match sheet_pin_side_for_rotation(pins[i].rotation) {
            Some(pin_side) => same_text(pin_side, side),
            None => true,
        };
        if counts {
            count += 1;
        }
        i += 1;
    }
    assert(pin_views(pins@).take(i as int) =~= pin_views(pins@));
    count
}

/// A label of that name comes before position `k`.
spec fn is_named_before(labels: Seq<LabelView>, k: int, name: Seq<char>) -> bool {
    exists|j: int| 0 <= j < k && (#[trigger] labels[j]).text == name
}

/// Whether a label of that name comes before position `k`.
fn named_before(labels: &Vec<HierarchicalLabel>, k: usize, name: &str) -> (yes: bool)
    requires
        k <= labels@.len(),
    ensures
        yes == is_named_before(label_views(labels@), k as int, name@),
{
    let ghost all = label_views(labels@);
    let mut j: usize = 0;
    while j < k
        invariant
            j <= k <= labels@.len(),
            all == label_views(labels@),
            forall|m: int| 0 <= m < j ==> (#[trigger] all[m]).text != name@,
        decreases k - j,
    {
        assert(all[j as int] == labels@[j as int]@);
        if same_text(labels[j].text.as_str(), name) {
            return true;
        }
        j += 1;
    }
    false
}

/// Tell the labels that ask for a pin, by their positions, from those that do
/// not, by their names.
fn sort_labels(pins: &Vec<SheetPin>, labels: &Vec<HierarchicalLabel>) -> (sorted: (
    Vec<usize>,
    Vec<String>,
))
    ensures
        ({
            let all = label_views(labels@);
            let asked = new_labels(pin_views(pins@), all);
            &&& sorted.0@.len() == asked.len()
            &&& forall|n: int|
                0 <= n < asked.len() ==> (#[trigger] sorted.0@[n]) < all.len()
                    && all[sorted.0@[n] as int] == asked[n]
            &&& texts(sorted.1@) == skipped_names(pin_views(pins@), all)
        }),
{
    let ghost all = label_views(labels@);
    let ghost existing = pin_views(pins@);
    let mut chosen: Vec<usize> = Vec::new();
    let mut skipped: Vec<String> = Vec::new();
    let mut k: usize = 0;
    assert(all.take(0).len() == 0);
    assert(texts(skipped@) =~= skipped_names(existing, all.take(0)));
    while k < labels.len()
        invariant
            k <= labels@.len(),
            all == label_views(labels@),
            existing == pin_views(pins@),
            chosen@.len() == new_labels(existing, all.take(k as int)).len(),
            forall|n: int|
                0 <= n < chosen@.len() ==> (#[trigger] chosen@[n]) < all.len()
                    && all[chosen@[n] as int] == new_labels(existing, all.take(k as int))[n],
            texts(skipped@) == skipped_names(existing, all.take(k as int)),
        decreases labels@.len() - k,
    {
        let ghost here = all.take(k + 1);
        assert(here.drop_last() =~= all.take(k as int));
        assert(here.last() == labels@[k as int]@);
        assert(forall|j: int| 0 <= j < k ==> here[j] == all[j]);
        assert(all[k as int] == labels@[k as int]@);
        let name = labels[k].text.as_str();
        let taken = find_pin(pins, name).is_some() || named_before(labels, k, name);
        assert(taken == !asks_for_pin(existing, here, k as int)) by {
            if is_named_before(all, k as int, name@) {
                let j = choose|j: int| 0 <= j < k && (#[trigger] all[j]).text == name@;
                assert(here[j].text == here[k as int].text);
            } else {
                assert forall|j: int| 0 <= j < k implies (#[trigger] here[j]).text
                    != here[k as int].text by {
                    assert(all[j].text != name@);
                }
            }
        }
        if taken {
            let ghost before = skipped@;
            skipped.push(labels[k].text.clone());
            assert(texts(skipped@) =~= texts(before).push(name@));
        } else {
            chosen.push(k);
        }
        k += 1;
    }
    assert(all.take(k as int) =~= all);
    (chosen, skipped)
}

/// How far `to` lies past `from`; nothing where it does not.
fn distance_past(to: i128, from: i64) -> (distance: u128)
    ensures
        distance == (if to <= from {
            0int
        } else {
            to - from
        }),
{
    if to <= from as i128 {
        0
    } else if from >= 0 || to < 0 {
        (to - from as i128) as u128
    } else {
        to as u128 + (0 - from as i128) as u128
    }
}

/// Count the whole spacings between the corner and the farthest pin that may be
/// on the edge.
fn find_farthest(pins: &Vec<SheetPin>, sheet_box: SheetBox, side: &str) -> (slot: u128)
    requires
        is_side(side@),
    ensures
        slot == farthest_slot(sheet_box, side@, pin_views(pins@)),
        SHEET_PIN_SPACING * slot <= i128::MAX + 0x1_0000_0000_0000_0000,
{
    proof {
        lemma_side_names();
    }
    let stacks_down = same_text(side, "right") || same_text(side, "left");
    let ghost all = pin_views(pins@);
    let mut slot: u128 = 0;
    let mut i: usize = 0;
    assert(all.take(0).len() == 0);
    while i < pins.len()
        invariant
            i <= pins@.len(),
            all == pin_views(pins@),
            is_side(side@),
            stacks_down == (side@ == "right"@ || side@ == "left"@),
            slot == farthest_slot(sheet_box, side@, all.take(i as int)),
            SHEET_PIN_SPACING * slot <= i128::MAX + 0x1_0000_0000_0000_0000,
        decreases pins@.len() - i,
    {
        assert(all.take(i + 1).drop_last() =~= all.take(i as int));
        assert(all.take(i + 1).last() == pins@[i as int]@);
        let counts = match sheet_pin_side_for_rotation(pins[i].rotation) {
            Some(pin_side) => same_text(pin_side, side),
            None => true,
        };
        if counts {
            let distance = if stacks_down {
                distance_past(pins[i].y, sheet_box.y)
            } else {
                distance_past(pins[i].x, sheet_box.x)
            };
            let before = distance / SHEET_PIN_SPACING as u128;
            assert(before == slots_before(sheet_box, side@, all[i as int])) by {
                lemma_side_names();
            }
            if slot < before {
                slot = before;
            }
        }
        i += 1;
    }
    assert(all.take(i as int) =~= all);
    slot
}

/// Find the slot after which `count` new pins are put.
fn find_start(
    pins: &Vec<SheetPin>,
    sheet_box: SheetBox,
    side: &str,
    occupied: usize,
    count: usize,
) -> (slot: u128)
    requires
        is_side(side@),
        occupied == occupied_slots(pin_views(pins@), side@),
    ensures
        slot == start_slot(sheet_box, side@, pin_views(pins@), count as nat),
        slot + count <= 0x2_0000_0000_0000_0000,
{
    let far = find_farthest(pins, sheet_box, side);
    let base: u128 = if (occupied as u128) < far {
        far
    } else {
        occupied as u128
    };
    let length: i128 = match sheet_box.edge(side) {
        Some(edge) => edge.span_end - edge.span_start + SHEET_PIN_EDGE_TOLERANCE as i128,
        None => -1,
    };
    let needed: u128 = SHEET_PIN_SPACING as u128 * (base + count as u128);
    if length >= 0 && needed <= length as u128 {
        base
    } else {
        occupied as u128
    }
}

/// Plan the import of pins for `labels` onto the edge `side` of a sheet. An
/// import that does not fit on the edge is refused entire.
pub fn plan_import(
    sheet: &Sheet,
    sheet_name: &str,
    side: &str,
    rotation: i64,
    labels: &Vec<HierarchicalLabel>,
) -> (plan: Result<ImportPlan, Refusal>)
    requires
        side_rotation(side@) == Some(rotation),
    ensures
        ({
            let b = box_of(sheet@);
            let asked = new_labels(sheet@.pins, label_views(labels@));
            let planned = planned_pins(b, side@, sheet@.pins, label_views(labels@));
            match first_overflow(b, side@, planned, 0) {
                Some(n) => plan matches Err(refusal) && refusal@ == RefusalView::Message(
                    edge_is_full_text(
                        b,
                        sheet_name@,
                        side@,
                        occupied_slots(sheet@.pins, side@),
                        asked[n].text,
                    ),
                ),
                None => {
                    &&& plan is Ok
                    &&& pin_views(plan->Ok_0.pins@) == planned
                    &&& texts(plan->Ok_0.skipped@) == skipped_names(
                        sheet@.pins,
                        label_views(labels@),
                    )
                },
            }
        }),
{
    let ghost b = box_of(sheet@);
    let ghost all = label_views(labels@);
    let ghost asked = new_labels(sheet@.pins, all);
    let ghost planned = planned_pins(b, side@, sheet@.pins, all);
    proof {
        lemma_side_names();
    }
    let sheet_box = SheetBox::of(sheet);
    let stacks_down = same_text(side, "right") || same_text(side, "left");
    let right_x = sheet.x as i128 + sheet.width as i128;
    let bottom_y = sheet.y as i128 + sheet.height as i128;
    let edge_x = if same_text(side, "right") {
        right_x
    } else {
        sheet.x as i128
    };
    let edge_y = if same_text(side, "bottom") {
        bottom_y
    } else {
        sheet.y as i128
    };
    let occupied = count_occupied(&sheet.pins, side);
    let (chosen, skipped) = sort_labels(&sheet.pins, labels);
    let start = find_start(&sheet.pins, sheet_box, side, occupied, chosen.len());
    let mut pins: Vec<SheetPin> = Vec::new();
    let mut n: usize = 0;
    while n < chosen.len()
        invariant
            n <= chosen@.len(),
            all == label_views(labels@),
            asked == new_labels(sheet@.pins, all),
            chosen@.len() == asked.len(),
            forall|m: int|
                0 <= m < asked.len() ==> (#[trigger] chosen@[m]) < all.len()
                    && all[chosen@[m] as int] == asked[m],
            b == box_of(sheet@),
            sheet_box == b,
            planned == planned_pins(b, side@, sheet@.pins, all),
            start == start_slot(b, side@, sheet@.pins, asked.len()),
            start + chosen@.len() <= 0x2_0000_0000_0000_0000,
            side_rotation(side@) == Some(rotation),
            occupied == occupied_slots(sheet@.pins, side@),
            stacks_down == (side@ == "right"@ || side@ == "left"@),
            stacks_down ==> edge_x == edge_of(b, side@)->0.coordinate,
            !stacks_down ==> edge_y == edge_of(b, side@)->0.coordinate,
            pins@.len() == n,
            pin_views(pins@) =~= planned.take(n as int),
            first_overflow(b, side@, planned, 0) == first_overflow(b, side@, planned, n as int),
        decreases chosen@.len() - n,
    {
        let label = &labels[chosen[n]];
        assert(all[chosen@[n as int] as int] == label@);
        let pin_type = match &label.shape {
            Some(shape) => if is_allowed_pin_type(shape.as_str()) {
                shape.clone()
            } else {
                "passive".to_owned()
            },
            None => "passive".to_owned(),
        };
        let slot: u128 = start + n as u128 + 1;
        let offset: i128 = SHEET_PIN_SPACING as i128 * slot as i128;
        let (pin_x, pin_y) = if stacks_down {
            (edge_x, sheet.y as i128 + offset)
        } else {
            (sheet.x as i128 + offset, edge_y)
        };
        let pin = SheetPin {
            name: label.text.clone(),
            pin_type,
            x: pin_x,
            y: pin_y,
            rotation: Some(rotation),
        };
        assert(pin@ == planned[n as int]);
        if ensure_pin_is_on_sheet_edge(sheet_box, sheet_name, side, pin_x, pin_y).is_err() {
            return Err(
                sheet_pin_edge_is_full(
                    sheet_box,
                    sheet_name,
                    side,
                    occupied,
                    label.text.as_str(),
                ),
            );
        }
        let ghost before = pins@;
        pins.push(pin);
        assert(pin_views(pins@) =~= pin_views(before).push(pin@));
        n += 1;
    }
    assert(planned.take(n as int) =~= planned);
    Ok(ImportPlan { pins, skipped })
}

/// A request to import pins for the labels of the child of a sheet.
#[derive(Debug)]
pub struct ImportRequest {
    pub schematic: String,
    pub sheet_name: String,
    pub side: Option<String>,
}

impl ImportRequest {
    /// The edge that the pins are put on: the right one where none is named.
    pub open spec fn edge(&self) -> Seq<char> {
        match self.side {
            Some(side) => side@,
            None => "right"@,
        }
    }
}

/// The path of the child file that the named sheet refers to.
pub open spec fn import_source_path(sheets: Seq<SheetView>, request: ImportRequest) -> Seq<char> {
    let i = sheet_named(sheets, request.sheet_name@, 0)->0;
    joined(directory_of(request.schematic@), sheets[i].file)
}

/// Why a request to import is refused before the child is looked for, if it is.
pub open spec fn import_request_refusal(
    sheets: Seq<SheetView>,
    request: ImportRequest,
) -> Option<RefusalView> {
    if side_rotation(request.edge()) is None {
        Some(side_refusal(request.edge()))
    } else if sheet_named(sheets, request.sheet_name@, 0) is None {
        Some(RefusalView::Message(sheet_not_found_text(request.sheet_name@)))
    } else {
        None
    }
}

/// The path of the child file whose labels an import reads.
pub fn import_source(sheets: &Vec<Sheet>, request: &ImportRequest) -> (path: Result<
    String,
    Refusal,
>)
    ensures
        match path {
            Ok(path) => import_request_refusal(sheet_views(sheets@), *request) is None && path@
                == import_source_path(sheet_views(sheets@), *request),
            Err(refusal) => import_request_refusal(sheet_views(sheets@), *request) == Some(
                refusal@,
            ),
        },
{
    let side: &str = match &request.side {
        Some(side) => side.as_str(),
        None => "right",
    };
    if let Err(refusal) = sheet_pin_rotation_for(side) {
        return Err(refusal);
    }
    match find_sheet(sheets, request.sheet_name.as_str()) {
        Some(i) => {
            assert(sheet_views(sheets@)[i as int] == sheets@[i as int]@);
            Ok(child_path(request.schematic.as_str(), sheets[i].file.as_str()))
        },
        None => Err(sheet_not_found(request.sheet_name.as_str())),
    }
}

/// `Child file '<path>' not found on disk — cannot read its hierarchical labels`.
pub open spec fn child_missing_text(path: Seq<char>) -> Seq<char> {
    "Child file '"@ + path + "' not found on disk — cannot read its hierarchical labels"@
}

/// The pins that the import plans for the named sheet.
pub open spec fn import_plan(
    sheets: Seq<SheetView>,
    request: ImportRequest,
    labels: Seq<LabelView>,
) -> Seq<PinView> {
    let sheet = sheets[sheet_named(sheets, request.sheet_name@, 0)->0];
    planned_pins(box_of(sheet), request.edge(), sheet.pins, labels)
}

/// Why a request to import is refused, if it is. The labels are those of the
/// child; there are none where the child is not on disk.
pub open spec fn import_refusal(
    sheets: Seq<SheetView>,
    request: ImportRequest,
    child: Option<Seq<LabelView>>,
) -> Option<RefusalView> {
    if import_request_refusal(sheets, request) is Some {
        import_request_refusal(sheets, request)
    } else {
        match child {
            None => Some(
                RefusalView::Message(child_missing_text(import_source_path(sheets, request))),
            ),
            Some(labels) => {
                let sheet = sheets[sheet_named(sheets, request.sheet_name@, 0)->0];
                let b = box_of(sheet);
                let planned = import_plan(sheets, request, labels);
                match first_overflow(b, request.edge(), planned, 0) {
                    Some(n) => Some(
                        RefusalView::Message(
                            edge_is_full_text(
                                b,
                                request.sheet_name@,
                                request.edge(),
                                occupied_slots(sheet.pins, request.edge()),
                                planned[n].name,
                            ),
                        ),
                    ),
                    None => None,
                }
            },
        }
    }
}

/// The sheets after the import.
pub open spec fn with_imported_pins(
    sheets: Seq<SheetView>,
    request: ImportRequest,
    labels: Seq<LabelView>,
) -> Seq<SheetView> {
    let i = sheet_named(sheets, request.sheet_name@, 0)->0;
    sheets.update(
        i,
        with_pins(sheets[i], sheets[i].pins + import_plan(sheets, request, labels)),
    )
}

/// What an accepted import did. Where it imported nothing, nothing need be
/// written.
#[derive(Debug)]
pub struct PinImport {
    pub sheet_uuid: String,
    pub imported: Vec<String>,
    pub skipped: Vec<String>,
}

/// Import pins for the hierarchical labels of the child of a sheet. The labels
/// are `None` where the child is not on disk. A refused import changes nothing.
pub fn import_sheet_pins(
    sheets: &mut Vec<Sheet>,
    request: &ImportRequest,
    child: Option<&Vec<HierarchicalLabel>>,
) -> (import: Result<PinImport, Refusal>)
    ensures
        ({
            let before = sheet_views(old(sheets)@);
            let labels = match child {
                Some(labels) => Some(label_views(labels@)),
                None => None,
            };
            match import {
                Ok(done) => {
                    let sheet = before[sheet_named(before, request.sheet_name@, 0)->0];
                    &&& import_refusal(before, *request, labels) is None
                    &&& sheet_views(final(sheets)@) == with_imported_pins(
                        before,
                        *request,
                        labels->0,
                    )
                    &&& done.sheet_uuid@ == sheet.uuid
                    &&& texts(done.imported@) == pin_names(
                        import_plan(before, *request, labels->0),
                    )
                    &&& texts(done.skipped@) == skipped_names(sheet.pins, labels->0)
                },
                Err(refusal) => {
                    &&& import_refusal(before, *request, labels) == Some(refusal@)
                    &&& final(sheets)@ == old(sheets)@
                },
            }
        }),
{
    let ghost before = sheet_views(sheets@);
    let side: &str = match &request.side {
        Some(side) => side.as_str(),
        None => "right",
    };
    let rotation = match sheet_pin_rotation_for(side) {
        Ok(rotation) => rotation,
        Err(refusal) => {
            return Err(refusal);
        },
    };
    let i = match find_sheet(sheets, request.sheet_name.as_str()) {
        Some(i) => i,
        None => {
            return Err(sheet_not_found(request.sheet_name.as_str()));
        },
    };
    assert(before[i as int] == sheets@[i as int]@);
    let labels = match child {
        Some(labels) => labels,
        None => {
            let path = child_path(request.schematic.as_str(), sheets[i].file.as_str());
            let mut message = "Child file '".to_owned();
            message.append(path.as_str());
            message.append("' not found on disk — cannot read its hierarchical labels");
            return Err(Refusal::Message(message));
        },
    };
    let planned = plan_import(&sheets[i], request.sheet_name.as_str(), side, rotation, labels);
    proof {
        lemma_first_overflow(
            box_of(before[i as int]),
            side@,
            import_plan(before, *request, label_views(labels@)),
            0,
        );
    }
    match planned {
        Ok(mut plan) => {
            let imported = names_of(&plan.pins);
            let sheet_uuid = sheets[i].uuid.clone();
            let ghost added = pin_views(plan.pins@);
            let sheet = &mut sheets[i];
            sheet.pins.append(&mut plan.pins);
            assert(pin_views(sheets@[i as int].pins@) =~= before[i as int].pins + added);
            assert(sheet_views(sheets@) =~= with_imported_pins(
                before,
                *request,
                label_views(labels@),
            ));
            Ok(PinImport { sheet_uuid, imported, skipped: plan.skipped })
        },
        Err(refusal) => Err(refusal),
    }
}

/// The edge that an import reports: that of the first pin it imported, read back
/// off the sheets that were saved. An import that imported nothing has none.
pub fn written_side(saved: &Vec<Sheet>, sheet_name: &str, imported: &Vec<String>) -> (side: Result<
    Option<&'static str>,
    String,
>)
    ensures
        ({
            let sheets = sheet_views(saved@);
            if imported@.len() == 0 {
                side matches Ok(None)
            } else {
                match sheet_named(sheets, sheet_name@, 0) {
                    None => side matches Err(e) && e@ == sheet_not_written_text(sheet_name@),
                    Some(i) => match pin_named(sheets[i].pins, imported@[0]@, 0) {
                        None => side matches Err(e) && e@ == pin_not_written_text(
                            sheet_name@,
                            imported@[0]@,
                        ),
                        Some(k) => match rotation_side(sheets[i].pins[k].rotation) {
                            Some(edge) => side matches Ok(Some(found)) && found@ == edge,
                            None => side matches Ok(None),
                        },
                    },
                }
            }
        }),
{
    if imported.len() == 0 {
        return Ok(None);
    }
    match read_back_sheet_pin(saved, sheet_name, imported[0].as_str()) {
        Ok(pin) => Ok(sheet_pin_side_for_rotation(pin.rotation)),
        Err(message) => Err(message),
    }
}

/// Every label either has a pin on the sheet, or its name is among the new ones.
proof fn lemma_new_labels_cover(pins: Seq<PinView>, labels: Seq<LabelView>, k: int)
    requires
        0 <= k < labels.len(),
    ensures
        pin_named(pins, labels[k].text, 0) is Some || exists|n: int|
            0 <= n < new_labels(pins, labels).len() && (#[trigger] new_labels(
                pins,
                labels,
            )[n]).text == labels[k].text,
    decreases labels.len(),
{
    let all = new_labels(pins, labels);
    let shorter = labels.drop_last();
    let before = new_labels(pins, shorter);
    let last = labels.len() - 1;
    if pin_named(pins, labels[k].text, 0) is None {
        if k == last && asks_for_pin(pins, labels, last) {
            assert(all[all.len() - 1] == labels[k]);
        } else {
            let j = if k < last {
                k
            } else {
                choose|j: int| 0 <= j < k && (#[trigger] labels[j]).text == labels[k].text
            };
            assert(shorter[j] == labels[j]);
            lemma_new_labels_cover(pins, shorter, j);
            let n = choose|n: int|
                0 <= n < before.len() && (#[trigger] before[n]).text == labels[j].text;
            assert(all[n] == before[n]);
        }
    }
}

/// Each new label is one of the labels, has no pin on the sheet, and shares its
/// name with no other new label.
pub proof fn lemma_new_labels_are_new(pins: Seq<PinView>, labels: Seq<LabelView>)
    ensures
        ({
            let all = new_labels(pins, labels);
            &&& forall|n: int|
                0 <= n < all.len() ==> labels.contains(#[trigger] all[n]) && pin_named(
                    pins,
                    all[n].text,
                    0,
                ) is None
            &&& forall|m: int, n: int|
                0 <= m < n < all.len() ==> (#[trigger] all[m]).text != (#[trigger] all[n]).text
        }),
    decreases labels.len(),
{
    if labels.len() > 0 {
        let all = new_labels(pins, labels);
        let shorter = labels.drop_last();
        let before = new_labels(pins, shorter);
        let last = labels.len() - 1;
        lemma_new_labels_are_new(pins, shorter);
        assert forall|n: int| 0 <= n < all.len() implies labels.contains(#[trigger] all[n])
            && pin_named(pins, all[n].text, 0) is None by {
            if n < before.len() {
                assert(before[n] == all[n]);
                let j = choose|j: int| 0 <= j < shorter.len() && shorter[j] == before[n];
                assert(labels[j] == all[n]);
            } else {
                assert(labels[last] == all[n]);
            }
        }
        assert forall|m: int, n: int| 0 <= m < n < all.len() implies (#[trigger] all[m]).text != (
        #[trigger] all[n]).text by {
            assert(before[m] == all[m]);
            if n < before.len() {
                assert(before[n] == all[n]);
            } else {
                let j = choose|j: int| 0 <= j < shorter.len() && shorter[j] == before[m];
                assert(labels[j] == all[m]);
                assert(labels[j].text != labels[last].text);
            }
        }
    }
}

proof fn lemma_no_new_labels(pins: Seq<PinView>, labels: Seq<LabelView>)
    requires
        forall|k: int|
            0 <= k < labels.len() ==> pin_named(pins, (#[trigger] labels[k]).text, 0) is Some,
    ensures
        new_labels(pins, labels).len() == 0,
{
    lemma_new_labels_are_new(pins, labels);
    let all = new_labels(pins, labels);
    if all.len() > 0 {
        let first = all[0];
        let j = choose|j: int| 0 <= j < labels.len() && labels[j] == first;
        assert(pin_named(pins, labels[j].text, 0) is Some);
    }
}

/// Each label is imported or skipped, once and never both: the names of the new
/// pins and the names that are skipped are, taken together, those of the labels.
pub proof fn law_each_label_is_imported_or_skipped(pins: Seq<PinView>, labels: Seq<LabelView>)
    ensures
        label_names(new_labels(pins, labels)).to_multiset().add(
            skipped_names(pins, labels).to_multiset(),
        ) == label_names(labels).to_multiset(),
        new_labels(pins, labels).len() + skipped_names(pins, labels).len() == labels.len(),
    decreases labels.len(),
{
    broadcast use vstd::seq_lib::group_to_multiset_ensures;

    let asked = new_labels(pins, labels);
    let skipped = skipped_names(pins, labels);
    if labels.len() == 0 {
        assert(label_names(asked) =~= label_names(labels));
        assert(skipped.to_multiset() =~= vstd::multiset::Multiset::empty());
        assert(label_names(asked).to_multiset().add(skipped.to_multiset())
            =~= label_names(labels).to_multiset());
    } else {
        let shorter = labels.drop_last();
        let last = labels.last().text;
        law_each_label_is_imported_or_skipped(pins, shorter);
        let asked_before = new_labels(pins, shorter);
        let skipped_before = skipped_names(pins, shorter);
        assert(label_names(labels) =~= label_names(shorter).push(last));
        if asks_for_pin(pins, labels, labels.len() - 1) {
            assert(label_names(asked) =~= label_names(asked_before).push(last));
        } else {
            assert(skipped =~= skipped_before.push(last));
        }
        assert(label_names(asked).to_multiset().add(skipped.to_multiset())
            =~= label_names(labels).to_multiset());
    }
}

/// The planned pins have the names of the labels that ask for one, in order.
pub proof fn law_planned_pins_are_the_new_labels(
    b: SheetBox,
    side: Seq<char>,
    pins: Seq<PinView>,
    labels: Seq<LabelView>,
)
    ensures
        pin_names(planned_pins(b, side, pins, labels)) == label_names(new_labels(pins, labels)),
{
    assert(pin_names(planned_pins(b, side, pins, labels)) =~= label_names(
        new_labels(pins, labels),
    ));
}

/// After an import every label of the child has a pin on the sheet.
pub proof fn law_import_gives_every_label_a_pin(
    b: SheetBox,
    side: Seq<char>,
    pins: Seq<PinView>,
    labels: Seq<LabelView>,
)
    ensures
        forall|k: int|
            0 <= k < labels.len() ==> pin_named(
                pins + planned_pins(b, side, pins, labels),
                (#[trigger] labels[k]).text,
                0,
            ) is Some,
{
    let planned = planned_pins(b, side, pins, labels);
    let after = pins + planned;
    assert forall|k: int| 0 <= k < labels.len() implies pin_named(
        after,
        (#[trigger] labels[k]).text,
        0,
    ) is Some by {
        let name = labels[k].text;
        lemma_new_labels_cover(pins, labels, k);
        lemma_pin_named(pins, name, 0);
        lemma_pin_named(after, name, 0);
        if pin_named(pins, name, 0) is Some {
            let i = pin_named(pins, name, 0)->0;
            assert(after[i] == pins[i]);
        } else {
            let all = new_labels(pins, labels);
            let n = choose|n: int| 0 <= n < all.len() && (#[trigger] all[n]).text == name;
            assert(after[pins.len() + n] == planned[n]);
            assert(planned[n].name == name);
        }
    }
}

/// Importing the same labels a second time, onto whatever edge, plans nothing.
pub proof fn law_second_import_adds_nothing(
    b: SheetBox,
    side: Seq<char>,
    other_side: Seq<char>,
    pins: Seq<PinView>,
    labels: Seq<LabelView>,
)
    ensures
        ({
            let after = pins + planned_pins(b, side, pins, labels);
            &&& planned_pins(b, other_side, after, labels) == Seq::<PinView>::empty()
            &&& first_overflow(b, other_side, planned_pins(b, other_side, after, labels), 0)
                is None
            &&& skipped_names(after, labels).len() == labels.len()
        }),
{
    let after = pins + planned_pins(b, side, pins, labels);
    law_import_gives_every_label_a_pin(b, side, pins, labels);
    lemma_no_new_labels(after, labels);
    law_each_label_is_imported_or_skipped(after, labels);
    assert(planned_pins(b, other_side, after, labels) =~= Seq::<PinView>::empty());
}

/// An import never gives a sheet two pins of one name: names that differed before
/// differ after.
pub proof fn law_import_keeps_names_apart(
    b: SheetBox,
    side: Seq<char>,
    pins: Seq<PinView>,
    labels: Seq<LabelView>,
)
    requires
        forall|m: int, n: int|
            0 <= m < n < pins.len() ==> (#[trigger] pins[m]).name != (#[trigger] pins[n]).name,
    ensures
        ({
            let after = pins + planned_pins(b, side, pins, labels);
            forall|m: int, n: int|
                0 <= m < n < after.len() ==> (#[trigger] after[m]).name != (#[trigger] after[n]).name
        }),
{
    let planned = planned_pins(b, side, pins, labels);
    let after = pins + planned;
    let all = new_labels(pins, labels);
    lemma_new_labels_are_new(pins, labels);
    assert forall|m: int, n: int| 0 <= m < n < after.len() implies (#[trigger] after[m]).name != (
    #[trigger] after[n]).name by {
        if n >= pins.len() {
            let q = n - pins.len();
            assert(after[n] == planned[q]);
            assert(planned[q].name == all[q].text);
            lemma_pin_named(pins, all[q].text, 0);
            if m < pins.len() {
                assert(after[m] == pins[m]);
            } else {
                let p = m - pins.len();
                assert(after[m] == planned[p]);
                assert(planned[p].name == all[p].text);
            }
        } else {
            assert(after[m] == pins[m]);
            assert(after[n] == pins[n]);
        }
    }
}

proof fn lemma_slot_is_on_edge(b: SheetBox, side: Seq<char>, slot: nat, label: LabelView)
    requires
        is_side(side),
    ensures
        ({
            let pin = slot_pin(b, side, slot, label);
            &&& is_on_edge(b, side, pin.x, pin.y) <==> SHEET_PIN_SPACING * slot <= edge_length(
                b,
                side,
            ) + SHEET_PIN_EDGE_TOLERANCE
            &&& distance_along(b, side, pin) == SHEET_PIN_SPACING * slot
        }),
{
    lemma_side_names();
    assert(SHEET_PIN_SPACING * slot >= 0) by (nonlinear_arith)
        requires
            slot >= 0,
    ;
}

/// An import is accepted exactly where it plans no pin, or leaves the edge with no
/// more pins than it holds.
pub proof fn law_import_fits_within_the_capacity(
    b: SheetBox,
    side: Seq<char>,
    pins: Seq<PinView>,
    labels: Seq<LabelView>,
)
    requires
        is_side(side),
    ensures
        first_overflow(b, side, planned_pins(b, side, pins, labels), 0) is None <==> {
            let count = new_labels(pins, labels).len();
            count == 0 || occupied_slots(pins, side) + count <= edge_capacity(b, side)
        },
{
    let planned = planned_pins(b, side, pins, labels);
    let all = new_labels(pins, labels);
    let count = all.len();
    let occupied = occupied_slots(pins, side);
    let start = start_slot(b, side, pins, count);
    let limit = edge_length(b, side) + SHEET_PIN_EDGE_TOLERANCE;
    lemma_first_overflow(b, side, planned, 0);
    if count > 0 {
        let last = count - 1;
        assert(planned[last] == slot_pin(b, side, (start + count) as nat, all[last]));
        lemma_slot_is_on_edge(b, side, (start + count) as nat, all[last]);
        if first_overflow(b, side, planned, 0) is None {
            assert(is_on_edge(b, side, planned[last].x, planned[last].y));
        } else {
            let n = first_overflow(b, side, planned, 0)->0;
            let slot = (start + n + 1) as nat;
            assert(planned[n] == slot_pin(b, side, slot, all[n]));
            lemma_slot_is_on_edge(b, side, slot, all[n]);
        }
        assert(first_overflow(b, side, planned, 0) is None <==> SHEET_PIN_SPACING * (start + count)
            <= limit);
        assert(SHEET_PIN_SPACING * (start + count) <= limit <==> SHEET_PIN_SPACING * (occupied
            + count) <= limit);
        assert(SHEET_PIN_SPACING * (occupied + count) <= limit <==> occupied + count
            <= edge_capacity(b, side));
    }
}

proof fn lemma_farthest_slot(b: SheetBox, side: Seq<char>, pins: Seq<PinView>, j: int)
    requires
        0 <= j < pins.len(),
        may_be_on(pins[j], side),
    ensures
        slots_before(b, side, pins[j]) <= farthest_slot(b, side, pins),
    decreases pins.len(),
{
    if j < pins.len() - 1 {
        assert(pins.drop_last()[j] == pins[j]);
        lemma_farthest_slot(b, side, pins.drop_last(), j);
    }
}

/// Where there is room, every new pin is past every pin that may be on the edge:
/// further down a left or right edge, further along a top or bottom one.
pub proof fn law_imported_pins_are_past_the_others(
    b: SheetBox,
    side: Seq<char>,
    pins: Seq<PinView>,
    labels: Seq<LabelView>,
    n: int,
    j: int,
)
    requires
        is_side(side),
        has_room_below(b, side, pins, new_labels(pins, labels).len()),
        0 <= n < planned_pins(b, side, pins, labels).len(),
        0 <= j < pins.len(),
        may_be_on(pins[j], side),
    ensures
        ({
            let pin = planned_pins(b, side, pins, labels)[n];
            &&& distance_along(b, side, pins[j]) < distance_along(b, side, pin)
            &&& (side == "right"@ || side == "left"@) ==> pins[j].y < pin.y
            &&& (side == "top"@ || side == "bottom"@) ==> pins[j].x < pin.x
            &&& is_on_edge(b, side, pin.x, pin.y)
        }),
{
    lemma_side_names();
    let all = new_labels(pins, labels);
    let slot = (base_slot(b, side, pins) + n + 1) as nat;
    lemma_farthest_slot(b, side, pins, j);
    lemma_slot_is_on_edge(b, side, slot, all[n]);
}

/// Every pin of an accepted import is on the edge that was asked for, turned to
/// it, and at a place of its own.
pub proof fn law_imported_pins_are_on_the_edge(
    b: SheetBox,
    side: Seq<char>,
    pins: Seq<PinView>,
    labels: Seq<LabelView>,
)
    requires
        is_side(side),
        first_overflow(b, side, planned_pins(b, side, pins, labels), 0) is None,
    ensures
        ({
            let planned = planned_pins(b, side, pins, labels);
            &&& forall|n: int|
                0 <= n < planned.len() ==> is_on_edge(
                    b,
                    side,
                    (#[trigger] planned[n]).x,
                    planned[n].y,
                ) && rotation_side(planned[n].rotation) == Some(side)
            &&& forall|m: int, n: int|
                0 <= m < n < planned.len() ==> ((#[trigger] planned[m]).x, planned[m].y) != ((
                #[trigger] planned[n]).x, planned[n].y)
        }),
{
    lemma_side_names();
    let planned = planned_pins(b, side, pins, labels);
    lemma_first_overflow(b, side, planned, 0);
    let all = new_labels(pins, labels);
    let start = start_slot(b, side, pins, all.len());
    assert forall|m: int, n: int| 0 <= m < n < planned.len() implies ((#[trigger] planned[m]).x,
        planned[m].y) != ((#[trigger] planned[n]).x, planned[n].y) by {
        lemma_slot_is_on_edge(b, side, (start + m + 1) as nat, all[m]);
        lemma_slot_is_on_edge(b, side, (start + n + 1) as nat, all[n]);
    }
}

} // verus!
