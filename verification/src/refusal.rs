//! The ways in which a request is turned down.

use vstd::prelude::*;

verus! {

/// Why a request was not carried out, as the caller is told.
#[derive(Debug)]
pub enum Refusal {
    /// The request cannot be carried out as it stands.
    Message(String),
    /// One argument has a value that cannot be accepted.
    InvalidArgument { argument: String, reason: String },
    /// The result of the edit, checked before it was written, is not what was
    /// intended. Nothing was written.
    StaleTarget { target: String, reason: String, message: String },
    /// The edit was written, and what was read back is not what was intended.
    OutcomeUncertain { target: String, operation: String, reason: String },
}

/// A [`Refusal`] by the texts it holds.
pub enum RefusalView {
    Message(Seq<char>),
    InvalidArgument { argument: Seq<char>, reason: Seq<char> },
    StaleTarget { target: Seq<char>, reason: Seq<char>, message: Seq<char> },
    OutcomeUncertain { target: Seq<char>, operation: Seq<char>, reason: Seq<char> },
}

impl View for Refusal {
    type V = RefusalView;

    open spec fn view(&self) -> RefusalView {
        match self {
            Refusal::Message(message) => RefusalView::Message(message@),
            Refusal::InvalidArgument { argument, reason } => RefusalView::InvalidArgument {
                argument: argument@,
                reason: reason@,
            },
            Refusal::StaleTarget { target, reason, message } => RefusalView::StaleTarget {
                target: target@,
                reason: reason@,
                message: message@,
            },
            Refusal::OutcomeUncertain { target, operation, reason } => {
                RefusalView::OutcomeUncertain {
                    target: target@,
                    operation: operation@,
                    reason: reason@,
                }
            },
        }
    }
}

/// `Sheet '<name>' not found`.
pub open spec fn sheet_not_found_text(name: Seq<char>) -> Seq<char> {
    "Sheet '"@ + name + "' not found"@
}

/// The refusal of a request that names a sheet the schematic does not have.
pub fn sheet_not_found(name: &str) -> (refusal: Refusal)
    ensures
        refusal@ == RefusalView::Message(sheet_not_found_text(name@)),
{
    let mut message = "Sheet '".to_owned();
    message.append(name);
    message.append("' not found");
    Refusal::Message(message)
}

/// `Pin '<pin>' not found on sheet '<sheet>'`.
pub open spec fn pin_not_found_text(pin: Seq<char>, sheet: Seq<char>) -> Seq<char> {
    "Pin '"@ + pin + "' not found on sheet '"@ + sheet + "'"@
}

/// The refusal of a request that names a pin the sheet does not have.
pub fn pin_not_found(pin: &str, sheet: &str) -> (refusal: Refusal)
    ensures
        refusal@ == RefusalView::Message(pin_not_found_text(pin@, sheet@)),
{
    let mut message = "Pin '".to_owned();
    message.append(pin);
    message.append("' not found on sheet '");
    message.append(sheet);
    message.append("'");
    Refusal::Message(message)
}

/// `Schematic '<path>' not found`.
pub open spec fn schematic_not_found_text(path: Seq<char>) -> Seq<char> {
    "Schematic '"@ + path + "' not found"@
}

/// The refusal of a request whose root schematic is not on disk.
pub fn schematic_not_found(path: &str) -> (refusal: Refusal)
    ensures
        refusal@ == RefusalView::Message(schematic_not_found_text(path@)),
{
    let mut message = "Schematic '".to_owned();
    message.append(path);
    message.append("' not found");
    Refusal::Message(message)
}

} // verus!
