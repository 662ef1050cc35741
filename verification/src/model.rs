//! What the library reads and changes of a schematic: its sheets, their pins, and
//! the hierarchical labels of a child.

use crate::text::{same_text, texts};
use vstd::prelude::*;

verus! {

/// The text of a string that may be absent.
pub open spec fn text_of(t: Option<String>) -> Option<Seq<char>> {
    match t {
        Some(s) => Some(s@),
        None => None,
    }
}

pub fn copy_text(t: &Option<String>) -> (copy: Option<String>)
    ensures
        text_of(copy) == text_of(*t),
{
    match t {
        Some(s) => Some(s.clone()),
        None => None,
    }
}

/// A pin on the box of a sheet. The rotation, not the position, says which edge
/// the pin is on.
#[derive(Debug)]
pub struct SheetPin {
    pub name: String,
    pub pin_type: String,
    pub x: i128,
    pub y: i128,
    pub rotation: Option<i64>,
}

/// A [`SheetPin`] by its values.
#[verifier::ext_equal]
pub struct PinView {
    pub name: Seq<char>,
    pub pin_type: Seq<char>,
    pub x: int,
    pub y: int,
    pub rotation: Option<i64>,
}

impl View for SheetPin {
    type V = PinView;

    open spec fn view(&self) -> PinView {
        PinView {
            name: self.name@,
            pin_type: self.pin_type@,
            x: self.x as int,
            y: self.y as int,
            rotation: self.rotation,
        }
    }
}

impl Clone for SheetPin {
    fn clone(&self) -> (copy: Self)
        ensures
            copy@ == self@,
    {
        SheetPin {
            name: self.name.clone(),
            pin_type: self.pin_type.clone(),
            x: self.x,
            y: self.y,
            rotation: self.rotation,
        }
    }
}

pub open spec fn pin_views(pins: Seq<SheetPin>) -> Seq<PinView> {
    pins.map_values(|p: SheetPin| p@)
}

/// A sheet on the canvas of its parent schematic: the box, the child file it
/// refers to, the page number it has in the project at hand, and its pins.
#[derive(Debug)]
pub struct Sheet {
    pub uuid: String,
    pub name: String,
    pub file: String,
    pub x: i64,
    pub y: i64,
    pub width: i64,
    pub height: i64,
    pub page: Option<String>,
    pub pins: Vec<SheetPin>,
}

/// A [`Sheet`] by its values.
#[verifier::ext_equal]
pub struct SheetView {
    pub uuid: Seq<char>,
    pub name: Seq<char>,
    pub file: Seq<char>,
    pub x: i64,
    pub y: i64,
    pub width: i64,
    pub height: i64,
    pub page: Option<Seq<char>>,
    pub pins: Seq<PinView>,
}

impl View for Sheet {
    type V = SheetView;

    open spec fn view(&self) -> SheetView {
        SheetView {
            uuid: self.uuid@,
            name: self.name@,
            file: self.file@,
            x: self.x,
            y: self.y,
            width: self.width,
            height: self.height,
            page: text_of(self.page),
            pins: pin_views(self.pins@),
        }
    }
}

impl Clone for Sheet {
    fn clone(&self) -> (copy: Self)
        ensures
            copy@ == self@,
    {
        Sheet {
            uuid: self.uuid.clone(),
            name: self.name.clone(),
            file: self.file.clone(),
            x: self.x,
            y: self.y,
            width: self.width,
            height: self.height,
            page: copy_text(&self.page),
            pins: copy_pins(&self.pins),
        }
    }
}

pub fn copy_pins(pins: &Vec<SheetPin>) -> (copy: Vec<SheetPin>)
    ensures
        pin_views(copy@) == pin_views(pins@),
{
    let mut copy: Vec<SheetPin> = Vec::new();
    let mut i: usize = 0;
    while i < pins.len()
        invariant
            i <= pins@.len(),
            pin_views(copy@) == pin_views(pins@).take(i as int),
        decreases pins@.len() - i,
    {
        let ghost before = copy@;
        copy.push(pins[i].clone());
        assert(pin_views(copy@) =~= pin_views(before).push(pins@[i as int]@));
        assert(pin_views(pins@).take(i + 1) =~= pin_views(pins@).take(i as int).push(
            pin_views(pins@)[i as int],
        ));
        i += 1;
    }
    assert(pin_views(pins@).take(i as int) =~= pin_views(pins@));
    copy
}

/// The names of the pins, in order.
pub open spec fn pin_names(pins: Seq<PinView>) -> Seq<Seq<char>> {
    pins.map_values(|p: PinView| p.name)
}

/// The names of the pins, in order.
pub fn names_of(pins: &Vec<SheetPin>) -> (names: Vec<String>)
    ensures
        texts(names@) == pin_names(pin_views(pins@)),
{
    let ghost all = pin_names(pin_views(pins@));
    let mut names: Vec<String> = Vec::new();
    let mut i: usize = 0;
    assert(texts(names@) =~= all.take(0));
    while i < pins.len()
        invariant
            i <= pins@.len(),
            all == pin_names(pin_views(pins@)),
            texts(names@) == all.take(i as int),
        decreases pins@.len() - i,
    {
        let ghost before = names@;
        names.push(pins[i].name.clone());
        assert(texts(names@) =~= texts(before).push(pins@[i as int].name@));
        assert(all.take(i + 1) =~= all.take(i as int).push(all[i as int]));
        i += 1;
    }
    assert(all.take(i as int) =~= all);
    names
}

pub open spec fn sheet_views(sheets: Seq<Sheet>) -> Seq<SheetView> {
    sheets.map_values(|s: Sheet| s@)
}

/// A hierarchical label of a child schematic.
#[derive(Debug)]
pub struct HierarchicalLabel {
    pub text: String,
    pub shape: Option<String>,
}

/// A [`HierarchicalLabel`] by its values.
#[verifier::ext_equal]
pub struct LabelView {
    pub text: Seq<char>,
    pub shape: Option<Seq<char>>,
}

impl View for HierarchicalLabel {
    type V = LabelView;

    open spec fn view(&self) -> LabelView {
        LabelView { text: self.text@, shape: text_of(self.shape) }
    }
}

pub open spec fn label_views(labels: Seq<HierarchicalLabel>) -> Seq<LabelView> {
    labels.map_values(|l: HierarchicalLabel| l@)
}

/// The names of the labels, in order.
pub open spec fn label_names(labels: Seq<LabelView>) -> Seq<Seq<char>> {
    labels.map_values(|l: LabelView| l.text)
}

/// The first sheet called `name`, from position `from` on.
pub open spec fn sheet_named(sheets: Seq<SheetView>, name: Seq<char>, from: int) -> Option<int>
    decreases sheets.len() - from,
{
    if from >= sheets.len() {
        None
    } else if sheets[from].name == name {
        Some(from)
    } else {
        sheet_named(sheets, name, from + 1)
    }
}

pub proof fn lemma_sheet_named(sheets: Seq<SheetView>, name: Seq<char>, from: int)
    requires
        0 <= from,
    ensures
        match sheet_named(sheets, name, from) {
            Some(i) => from <= i < sheets.len() && sheets[i].name == name && forall|j: int|
                from <= j < i ==> (#[trigger] sheets[j]).name != name,
            None => forall|j: int| from <= j < sheets.len() ==> (#[trigger] sheets[j]).name != name,
        },
    decreases sheets.len() - from,
{
    if from < sheets.len() && sheets[from].name != name {
        lemma_sheet_named(sheets, name, from + 1);
    }
}

/// Find the first sheet called `name`.
pub fn find_sheet(sheets: &Vec<Sheet>, name: &str) -> (at: Option<usize>)
    ensures
        match at {
            Some(i) => i < sheets@.len() && sheet_named(sheet_views(sheets@), name@, 0) == Some(
                i as int,
            ),
            None => sheet_named(sheet_views(sheets@), name@, 0) is None,
        },
{
    let mut i: usize = 0;
    while i < sheets.len()
        invariant
            i <= sheets@.len(),
            sheet_named(sheet_views(sheets@), name@, 0) == sheet_named(
                sheet_views(sheets@),
                name@,
                i as int,
            ),
        decreases sheets@.len() - i,
    {
        assert(sheet_views(sheets@)[i as int] == sheets@[i as int]@);
        if same_text(sheets[i].name.as_str(), name) {
            return Some(i);
        }
        i += 1;
    }
    None
}

/// The first pin called `name`, from position `from` on.
pub open spec fn pin_named(pins: Seq<PinView>, name: Seq<char>, from: int) -> Option<int>
    decreases pins.len() - from,
{
    if from >= pins.len() {
        None
    } else if pins[from].name == name {
        Some(from)
    } else {
        pin_named(pins, name, from + 1)
    }
}

pub proof fn lemma_pin_named(pins: Seq<PinView>, name: Seq<char>, from: int)
    requires
        0 <= from,
    ensures
        match pin_named(pins, name, from) {
            Some(i) => from <= i < pins.len() && pins[i].name == name && forall|j: int|
                from <= j < i ==> (#[trigger] pins[j]).name != name,
            None => forall|j: int| from <= j < pins.len() ==> (#[trigger] pins[j]).name != name,
        },
    decreases pins.len() - from,
{
    if from < pins.len() && pins[from].name != name {
        lemma_pin_named(pins, name, from + 1);
    }
}

/// Find the first pin called `name`.
pub fn find_pin(pins: &Vec<SheetPin>, name: &str) -> (at: Option<usize>)
    ensures
        match at {
            Some(i) => i < pins@.len() && pin_named(pin_views(pins@), name@, 0) == Some(i as int),
            None => pin_named(pin_views(pins@), name@, 0) is None,
        },
{
    let mut i: usize = 0;
    while i < pins.len()
        invariant
            i <= pins@.len(),
            pin_named(pin_views(pins@), name@, 0) == pin_named(pin_views(pins@), name@, i as int),
        decreases pins@.len() - i,
    {
        assert(pin_views(pins@)[i as int] == pins@[i as int]@);
        if same_text(pins[i].name.as_str(), name) {
            return Some(i);
        }
        i += 1;
    }
    None
}

} // verus!
