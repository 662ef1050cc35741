//! The box of a sheet, its four edges, and where a pin may sit on them.

use crate::model::{Sheet, SheetView};
use crate::numeral::{decimal, fixed_text, format_fixed, to_decimal};
use crate::refusal::{Refusal, RefusalView};
use crate::text::same_text;
use vstd::prelude::*;

verus! {

/// The distance between two pins of an import: 2.54 mm.
pub const SHEET_PIN_SPACING: i64 = 2_540_000_000_000;

/// One nanometre: the resolution of a schematic, and so the most a pin position
/// may differ from an edge before it is a different point.
pub const SHEET_PIN_EDGE_TOLERANCE: i64 = 1_000_000;

/// The rotations that select an edge, in units of 10^-12 degrees.
pub const ROTATION_RIGHT: i64 = 0;

pub const ROTATION_TOP: i64 = 90_000_000_000_000;

pub const ROTATION_LEFT: i64 = 180_000_000_000_000;

pub const ROTATION_BOTTOM: i64 = 270_000_000_000_000;

/// The names of the four edges differ from each other.
pub proof fn lemma_side_names()
    ensures
        "right"@ != "left"@,
        "right"@ != "top"@,
        "right"@ != "bottom"@,
        "left"@ != "top"@,
        "left"@ != "bottom"@,
        "top"@ != "bottom"@,
{
    reveal_strlit("right");
    reveal_strlit("left");
    reveal_strlit("top");
    reveal_strlit("bottom");
    assert("right"@.len() == 5);
    assert("left"@.len() == 4);
    assert("top"@.len() == 3);
    assert("bottom"@.len() == 6);
}

/// `side` names one of the four edges of a sheet box.
pub open spec fn is_side(side: Seq<char>) -> bool {
    side == "right"@ || side == "left"@ || side == "top"@ || side == "bottom"@
}

/// The rotation that says "this pin is on that edge".
pub open spec fn side_rotation(side: Seq<char>) -> Option<i64> {
    if side == "right"@ {
        Some(ROTATION_RIGHT)
    } else if side == "top"@ {
        Some(ROTATION_TOP)
    } else if side == "left"@ {
        Some(ROTATION_LEFT)
    } else if side == "bottom"@ {
        Some(ROTATION_BOTTOM)
    } else {
        None
    }
}

/// The edge that a rotation selects, if it selects one.
pub open spec fn rotation_side(rotation: Option<i64>) -> Option<Seq<char>> {
    match rotation {
        Some(r) => if r == ROTATION_RIGHT {
            Some("right"@)
        } else if r == ROTATION_TOP {
            Some("top"@)
        } else if r == ROTATION_LEFT {
            Some("left"@)
        } else if r == ROTATION_BOTTOM {
            Some("bottom"@)
        } else {
            None
        },
        None => None,
    }
}

/// The rotation that a pin on the edge `side` carries; `None` for a name that is
/// no edge.
pub fn rotation_for_sheet_pin_side(side: &str) -> (rotation: Option<i64>)
    ensures
        rotation == side_rotation(side@),
{
    if same_text(side, "right") {
        Some(ROTATION_RIGHT)
    } else if same_text(side, "top") {
        Some(ROTATION_TOP)
    } else if same_text(side, "left") {
        Some(ROTATION_LEFT)
    } else if same_text(side, "bottom") {
        Some(ROTATION_BOTTOM)
    } else {
        None
    }
}

/// The edge that a rotation selects; `None` where there is no rotation, or one
/// that selects no edge.
pub fn sheet_pin_side_for_rotation(rotation: Option<i64>) -> (side: Option<&'static str>)
    ensures
        match side {
            Some(s) => rotation_side(rotation) == Some(s@),
            None => rotation_side(rotation) is None,
        },
{
    match rotation {
        Some(r) => if r == ROTATION_RIGHT {
            Some("right")
        } else if r == ROTATION_TOP {
            Some("top")
        } else if r == ROTATION_LEFT {
            Some("left")
        } else if r == ROTATION_BOTTOM {
            Some("bottom")
        } else {
            None
        },
        None => None,
    }
}

/// The rotation of a side names that side, and the side of a rotation has that
/// rotation: each is the inverse of the other.
pub proof fn law_rotation_is_the_side(side: Seq<char>, rotation: i64)
    ensures
        side_rotation(side) == Some(rotation) <==> rotation_side(Some(rotation)) == Some(side),
        is_side(side) <==> side_rotation(side) is Some,
{
    lemma_side_names();
}

pub open spec fn not_an_edge_text(side: Seq<char>) -> Seq<char> {
    "'"@ + side + "' is not a sheet edge — must be one of: right, left, top, bottom"@
}

/// Accept a `side` argument, giving the rotation it selects.
pub fn sheet_pin_rotation_for(side: &str) -> (rotation: Result<i64, Refusal>)
    ensures
        match rotation {
            Ok(r) => side_rotation(side@) == Some(r),
            Err(refusal) => {
                &&& side_rotation(side@) is None
                &&& refusal@ == (RefusalView::InvalidArgument {
                    argument: "side"@,
                    reason: not_an_edge_text(side@),
                })
            },
        },
{
    match rotation_for_sheet_pin_side(side) {
        Some(r) => Ok(r),
        None => {
            let mut reason = "'".to_owned();
            reason.append(side);
            reason.append("' is not a sheet edge — must be one of: right, left, top, bottom");
            Err(Refusal::InvalidArgument { argument: "side".to_owned(), reason })
        },
    }
}

/// One of the electrical types a sheet pin may have.
pub open spec fn is_pin_type(pin_type: Seq<char>) -> bool {
    ||| pin_type == "input"@
    ||| pin_type == "output"@
    ||| pin_type == "bidirectional"@
    ||| pin_type == "tri_state"@
    ||| pin_type == "passive"@
}

/// Whether `pin_type` is one of the electrical types a sheet pin may have.
pub fn is_allowed_pin_type(pin_type: &str) -> (allowed: bool)
    ensures
        allowed == is_pin_type(pin_type@),
{
    same_text(pin_type, "input") || same_text(pin_type, "output") || same_text(
        pin_type,
        "bidirectional",
    ) || same_text(pin_type, "tri_state") || same_text(pin_type, "passive")
}

pub open spec fn invalid_pin_type_text(pin_type: Seq<char>) -> Seq<char> {
    "Invalid pin_type '"@ + pin_type
        + "' — must be one of: input, output, bidirectional, tri_state, passive"@
}

/// Accept a `pin_type` argument.
pub fn validate_pin_type(pin_type: &str) -> (verdict: Result<(), Refusal>)
    ensures
        match verdict {
            Ok(_) => is_pin_type(pin_type@),
            Err(refusal) => !is_pin_type(pin_type@) && refusal@ == RefusalView::Message(
                invalid_pin_type_text(pin_type@),
            ),
        },
{
    if is_allowed_pin_type(pin_type) {
        Ok(())
    } else {
        let mut message = "Invalid pin_type '".to_owned();
        message.append(pin_type);
        message.append("' — must be one of: input, output, bidirectional, tri_state, passive");
        Err(Refusal::Message(message))
    }
}

/// One of the two axes of the canvas.
#[derive(Clone, Copy, Debug, PartialEq, Eq, Structural)]
pub enum Axis {
    X,
    Y,
}

/// The name of an axis.
pub open spec fn axis_name(axis: Axis) -> Seq<char> {
    match axis {
        Axis::X => "x"@,
        Axis::Y => "y"@,
    }
}

impl Axis {
    /// The name of the axis.
    pub fn name(self) -> (name: &'static str)
        ensures
            name@ == axis_name(self),
    {
        match self {
            Axis::X => "x",
            Axis::Y => "y",
        }
    }
}

/// The coordinate that a point has on an axis.
pub open spec fn on_axis(axis: Axis, x: int, y: int) -> int {
    match axis {
        Axis::X => x,
        Axis::Y => y,
    }
}

/// The box of a sheet: top-left corner and size.
#[derive(Clone, Copy, Debug, PartialEq, Eq, Structural)]
pub struct SheetBox {
    pub x: i64,
    pub y: i64,
    pub width: i64,
    pub height: i64,
}

/// One edge of a sheet box: the axis a pin on it is held to and the coordinate it
/// has there, and how far the edge runs along the other axis.
#[derive(Clone, Copy, Debug, PartialEq, Eq, Structural)]
pub struct SheetEdge {
    pub axis: Axis,
    pub coordinate: i128,
    pub span_axis: Axis,
    pub span_start: i128,
    pub span_end: i128,
}

/// A [`SheetEdge`] by its values.
pub struct EdgeView {
    pub axis: Axis,
    pub coordinate: int,
    pub span_axis: Axis,
    pub span_start: int,
    pub span_end: int,
}

impl View for SheetEdge {
    type V = EdgeView;

    open spec fn view(&self) -> EdgeView {
        EdgeView {
            axis: self.axis,
            coordinate: self.coordinate as int,
            span_axis: self.span_axis,
            span_start: self.span_start as int,
            span_end: self.span_end as int,
        }
    }
}

/// The edge of `b` that `side` names.
pub open spec fn edge_of(b: SheetBox, side: Seq<char>) -> Option<EdgeView> {
    if side == "right"@ || side == "left"@ {
        Some(
            EdgeView {
                axis: Axis::X,
                coordinate: if side == "right"@ {
                    b.x + b.width
                } else {
                    b.x as int
                },
                span_axis: Axis::Y,
                span_start: b.y as int,
                span_end: b.y + b.height,
            },
        )
    } else if side == "top"@ || side == "bottom"@ {
        Some(
            EdgeView {
                axis: Axis::Y,
                coordinate: if side == "bottom"@ {
                    b.y + b.height
                } else {
                    b.y as int
                },
                span_axis: Axis::X,
                span_start: b.x as int,
                span_end: b.x + b.width,
            },
        )
    } else {
        None
    }
}

/// The box of a sheet.
pub open spec fn box_of(sheet: SheetView) -> SheetBox {
    SheetBox { x: sheet.x, y: sheet.y, width: sheet.width, height: sheet.height }
}

impl SheetBox {
    /// The box of a sheet.
    pub fn of(sheet: &Sheet) -> (b: SheetBox)
        ensures
            b == box_of(sheet@),
    {
        SheetBox { x: sheet.x, y: sheet.y, width: sheet.width, height: sheet.height }
    }

    /// The edge that `side` names, or `None` for a name that is not one.
    pub fn edge(&self, side: &str) -> (edge: Option<SheetEdge>)
        ensures
            match edge {
                Some(e) => edge_of(*self, side@) == Some(e@),
                None => edge_of(*self, side@) is None,
            },
    {
        proof {
            lemma_side_names();
        }
        let right = self.x as i128 + self.width as i128;
        let bottom = self.y as i128 + self.height as i128;
        let is_right = same_text(side, "right");
        let is_bottom = same_text(side, "bottom");
        if is_right || same_text(side, "left") {
            Some(
                SheetEdge {
                    axis: Axis::X,
                    coordinate: if is_right {
                        right
                    } else {
                        self.x as i128
                    },
                    span_axis: Axis::Y,
                    span_start: self.y as i128,
                    span_end: bottom,
                },
            )
        } else if is_bottom || same_text(side, "top") {
            Some(
                SheetEdge {
                    axis: Axis::Y,
                    coordinate: if is_bottom {
                        bottom
                    } else {
                        self.y as i128
                    },
                    span_axis: Axis::X,
                    span_start: self.x as i128,
                    span_end: right,
                },
            )
        } else {
            None
        }
    }
}

pub open spec fn off_edge_text(
    axis: Axis,
    actual: int,
    side: Seq<char>,
    sheet_name: Seq<char>,
    expected: int,
) -> Seq<char> {
    axis_name(axis) + " = "@ + fixed_text(actual) + " is not on the '"@ + side
        + "' edge of sheet '"@ + sheet_name + "', which is "@ + axis_name(axis) + " = "@
        + fixed_text(expected)
        + ". KiCad relocates a sheet pin whose position and side disagree, so the pin would not stay where this call puts it"@
}

pub open spec fn past_end_text(
    axis: Axis,
    along: int,
    side: Seq<char>,
    sheet_name: Seq<char>,
    start: int,
    end: int,
) -> Seq<char> {
    axis_name(axis) + " = "@ + fixed_text(along) + " is past the end of the '"@ + side
        + "' edge of sheet '"@ + sheet_name + "', which runs from "@ + axis_name(axis) + " = "@
        + fixed_text(start) + " to "@ + fixed_text(end)
        + ". KiCad clamps a sheet pin to the nearest corner rather than leaving it off the box, so the pin would not stay where this call puts it"@
}

/// The point lies on the line of the edge, to within the tolerance.
pub open spec fn on_line(e: EdgeView, x: int, y: int) -> bool {
    e.coordinate - SHEET_PIN_EDGE_TOLERANCE <= on_axis(e.axis, x, y) <= e.coordinate
        + SHEET_PIN_EDGE_TOLERANCE
}

/// The point lies between the corners of the edge, to within the tolerance.
pub open spec fn within_span(e: EdgeView, x: int, y: int) -> bool {
    e.span_start - SHEET_PIN_EDGE_TOLERANCE <= on_axis(e.span_axis, x, y) <= e.span_end
        + SHEET_PIN_EDGE_TOLERANCE
}

/// The point lies on the edge `side`. A name that is no edge holds every point.
pub open spec fn is_on_edge(b: SheetBox, side: Seq<char>, x: int, y: int) -> bool {
    match edge_of(b, side) {
        None => true,
        Some(e) => on_line(e, x, y) && within_span(e, x, y),
    }
}

/// Why the position is refused for a pin on the edge `side`, if it is. A name
/// that is no edge refuses nothing.
pub open spec fn edge_refusal(
    b: SheetBox,
    sheet_name: Seq<char>,
    side: Seq<char>,
    x: int,
    y: int,
) -> Option<RefusalView> {
    match edge_of(b, side) {
        None => None,
        Some(e) => if !on_line(e, x, y) {
            Some(
                RefusalView::InvalidArgument {
                    argument: axis_name(e.axis),
                    reason: off_edge_text(
                        e.axis,
                        on_axis(e.axis, x, y),
                        side,
                        sheet_name,
                        e.coordinate,
                    ),
                },
            )
        } else if !within_span(e, x, y) {
            Some(
                RefusalView::InvalidArgument {
                    argument: axis_name(e.span_axis),
                    reason: past_end_text(
                        e.span_axis,
                        on_axis(e.span_axis, x, y),
                        side,
                        sheet_name,
                        e.span_start,
                        e.span_end,
                    ),
                },
            )
        } else {
            None
        },
    }
}

/// Refuse a position that is not on the edge the caller named, or past one of its
/// corners.
pub fn ensure_pin_is_on_sheet_edge(
    sheet_box: SheetBox,
    sheet_name: &str,
    side: &str,
    x: i128,
    y: i128,
) -> (verdict: Result<(), Refusal>)
    ensures
        match verdict {
            Ok(_) => edge_refusal(sheet_box, sheet_name@, side@, x as int, y as int) is None,
            Err(refusal) => edge_refusal(sheet_box, sheet_name@, side@, x as int, y as int) == Some(
                refusal@,
            ),
        },
{
    let edge = match sheet_box.edge(side) {
        Some(edge) => edge,
        None => {
            return Ok(());
        },
    };
    let tolerance: i128 = SHEET_PIN_EDGE_TOLERANCE as i128;
    let actual = match edge.axis {
        Axis::X => x,
        Axis::Y => y,
    };
    if actual < edge.coordinate - tolerance || actual > edge.coordinate + tolerance {
        let mut reason = edge.axis.name().to_owned();
        reason.append(" = ");
        reason.append(format_fixed(actual).as_str());
        reason.append(" is not on the '");
        reason.append(side);
        reason.append("' edge of sheet '");
        reason.append(sheet_name);
        reason.append("', which is ");
        reason.append(edge.axis.name());
        reason.append(" = ");
        reason.append(format_fixed(edge.coordinate).as_str());
        reason.append(
            ". KiCad relocates a sheet pin whose position and side disagree, so the pin would not stay where this call puts it",
        );
        return Err(
            Refusal::InvalidArgument { argument: edge.axis.name().to_owned(), reason },
        );
    }
    let along = match edge.span_axis {
        Axis::X => x,
        Axis::Y => y,
    };
    if along < edge.span_start - tolerance || along > edge.span_end + tolerance {
        let mut reason = edge.span_axis.name().to_owned();
        reason.append(" = ");
        reason.append(format_fixed(along).as_str());
        reason.append(" is past the end of the '");
        reason.append(side);
        reason.append("' edge of sheet '");
        reason.append(sheet_name);
        reason.append("', which runs from ");
        reason.append(edge.span_axis.name());
        reason.append(" = ");
        reason.append(format_fixed(edge.span_start).as_str());
        reason.append(" to ");
        reason.append(format_fixed(edge.span_end).as_str());
        reason.append(
            ". KiCad clamps a sheet pin to the nearest corner rather than leaving it off the box, so the pin would not stay where this call puts it",
        );
        return Err(
            Refusal::InvalidArgument { argument: edge.span_axis.name().to_owned(), reason },
        );
    }
    Ok(())
}

/// How many pins an edge holds at the import spacing, to within the tolerance.
pub open spec fn edge_capacity(b: SheetBox, side: Seq<char>) -> nat {
    match edge_of(b, side) {
        Some(e) => {
            let length = e.span_end - e.span_start + SHEET_PIN_EDGE_TOLERANCE;
            if length < 0 {
                0
            } else {
                (length / SHEET_PIN_SPACING as int) as nat
            }
        },
        None => 0,
    }
}

pub open spec fn edge_is_full_text(
    b: SheetBox,
    sheet_name: Seq<char>,
    side: Seq<char>,
    occupied: nat,
    first_that_did_not_fit: Seq<char>,
) -> Seq<char> {
    "The '"@ + side + "' edge of sheet '"@ + sheet_name + "' holds "@ + decimal(
        edge_capacity(b, side),
    ) + " sheet pins at 2.54 mm apart and already carries "@ + decimal(occupied) + ", so '"@
        + first_that_did_not_fit
        + "' and everything after it would be placed past a corner. KiCad clamps such a pin back onto the box, piling the overflow on the corner instead of leaving it where it was written, so the import is refused entire and nothing was written. Enlarge the sheet with edit_sheet, or import onto more than one side."@
}

/// The refusal of a whole import that would run an edge past its corner.
pub fn sheet_pin_edge_is_full(
    sheet_box: SheetBox,
    sheet_name: &str,
    side: &str,
    occupied: usize,
    first_that_did_not_fit: &str,
) -> (refusal: Refusal)
    ensures
        refusal@ == RefusalView::Message(
            edge_is_full_text(
                sheet_box,
                sheet_name@,
                side@,
                occupied as nat,
                first_that_did_not_fit@,
            ),
        ),
{
    let capacity: u128 = match sheet_box.edge(side) {
        Some(edge) => {
            let length = edge.span_end - edge.span_start + SHEET_PIN_EDGE_TOLERANCE as i128;
            if length < 0 {
                0
            } else {
                (length / SHEET_PIN_SPACING as i128) as u128
            }
        },
        None => 0,
    };
    let mut message = "The '".to_owned();
    message.append(side);
    message.append("' edge of sheet '");
    message.append(sheet_name);
    message.append("' holds ");
    message.append(to_decimal(capacity).as_str());
    message.append(" sheet pins at 2.54 mm apart and already carries ");
    message.append(to_decimal(occupied as u128).as_str());
    message.append(", so '");
    message.append(first_that_did_not_fit);
    message.append(
        "' and everything after it would be placed past a corner. KiCad clamps such a pin back onto the box, piling the overflow on the corner instead of leaving it where it was written, so the import is refused entire and nothing was written. Enlarge the sheet with edit_sheet, or import onto more than one side.",
    );
    Refusal::Message(message)
}

/// Both corners of an edge are on it.
pub proof fn law_corners_are_on_the_edge(b: SheetBox, sheet_name: Seq<char>, side: Seq<char>)
    requires
        b.width >= 0,
        b.height >= 0,
        is_side(side),
    ensures
        ({
            let e = edge_of(b, side)->0;
            &&& e.axis == Axis::X ==> {
                &&& edge_refusal(b, sheet_name, side, e.coordinate, e.span_start) is None
                &&& edge_refusal(b, sheet_name, side, e.coordinate, e.span_end) is None
            }
            &&& e.axis == Axis::Y ==> {
                &&& edge_refusal(b, sheet_name, side, e.span_start, e.coordinate) is None
                &&& edge_refusal(b, sheet_name, side, e.span_end, e.coordinate) is None
            }
        }),
{
}

/// A position is accepted for a side exactly where it is, to within a nanometre,
/// on the line of that edge and between its corners.
pub proof fn law_accepted_positions_are_on_the_edge(
    b: SheetBox,
    sheet_name: Seq<char>,
    side: Seq<char>,
    x: int,
    y: int,
)
    requires
        is_side(side),
    ensures
        edge_refusal(b, sheet_name, side, x, y) is None <==> {
            let e = edge_of(b, side)->0;
            on_line(e, x, y) && within_span(e, x, y)
        },
{
}

} // verus!
