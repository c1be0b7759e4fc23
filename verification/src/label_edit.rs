//! Deleting a net label by its name, and optionally its position.
use vstd::prelude::*;
use crate::commands::CommandError;
use crate::component_edit::{first_with_reference, pin_endpoint_error, pin_index, SchematicItems};
use crate::wire_edit::{snap_point, snap_point_to_grid};
use crate::outline_nets::GridPoint;
use crate::schematic::LabelShape;
use crate::text::str_eq;

verus! {

/// Two positions closer than a tenth of a millimetre on each axis, in grid units.
pub const LABEL_TOLERANCE: i64 = 1000;

/// A label on the schematic: its text, position and direction (degrees), and for a
/// global label its shape.
#[derive(Debug, Clone)]
pub struct PlacedLabel {
    pub text: String,
    pub position: GridPoint,
    pub angle: i32,
    pub shape: Option<LabelShape>,
}

pub open spec fn label_view(l: PlacedLabel) -> (Seq<char>, GridPoint) {
    (l.text@, l.position)
}

pub open spec fn label_views(v: Seq<PlacedLabel>) -> Seq<(Seq<char>, GridPoint)> {
    v.map_values(|l: PlacedLabel| label_view(l))
}

/// Whether a label is the one asked for: the same text and, when a position is
/// given, within a tenth of a millimetre of it on each axis.
pub open spec fn label_matches(l: (Seq<char>, GridPoint), name: Seq<char>, position: Option<GridPoint>) -> bool {
    &&& l.0 == name
    &&& match position {
        None => true,
        Some(p) => -LABEL_TOLERANCE < l.1.x - p.x < LABEL_TOLERANCE && -LABEL_TOLERANCE < l.1.y - p.y
            < LABEL_TOLERANCE,
    }
}

/// The first label from `k` on that matches.
pub open spec fn first_label_match(
    ls: Seq<(Seq<char>, GridPoint)>,
    name: Seq<char>,
    position: Option<GridPoint>,
    k: int,
) -> Option<int>
    decreases ls.len() - k,
{
    if k < 0 || k >= ls.len() {
        None
    } else if label_matches(ls[k], name, position) {
        Some(k)
    } else {
        first_label_match(ls, name, position, k + 1)
    }
}

/// Which label a deletion removes.
#[derive(Debug, Clone, Copy, PartialEq, Eq, Structural)]
pub enum LabelDeletion {
    /// The local label at this index.
    Local(usize),
    /// The global label at this index.
    Global(usize),
}

/// The label that deleting `name` (at `position`) removes: the first matching local
/// label, else the first matching global label.
pub open spec fn label_to_delete(
    labels: Seq<(Seq<char>, GridPoint)>,
    global_labels: Seq<(Seq<char>, GridPoint)>,
    name: Seq<char>,
    position: Option<GridPoint>,
) -> Option<LabelDeletion> {
    match first_label_match(labels, name, position, 0) {
        Some(i) => Some(LabelDeletion::Local(i as usize)),
        None => match first_label_match(global_labels, name, position, 0) {
            Some(j) => Some(LabelDeletion::Global(j as usize)),
            None => None,
        },
    }
}

fn label_matches_exec(l: &PlacedLabel, name: &str, position: Option<GridPoint>) -> (r: bool)
    ensures
        r == label_matches(label_view(*l), name@, position),
{
    if !str_eq(l.text.as_str(), name) {
        return false;
    }
    match position {
        None => true,
        Some(p) => {
            let dx = l.position.x as i64 - p.x as i64;
            let dy = l.position.y as i64 - p.y as i64;
            -LABEL_TOLERANCE < dx && dx < LABEL_TOLERANCE && -LABEL_TOLERANCE < dy && dy
                < LABEL_TOLERANCE
        },
    }
}

pub(crate) fn first_label_match_exec(ls: &Vec<PlacedLabel>, name: &str, position: Option<GridPoint>) -> (r: Option<usize>)
    ensures
        match first_label_match(label_views(ls@), name@, position, 0) {
            Some(i) => r matches Some(k) && k == i && i < ls@.len(),
            None => r is None,
        },
{
    let ghost lv = label_views(ls@);
    proof {
        lemma_first_label_match(lv, name@, position, 0);
    }
    let mut k: usize = 0;
    while k < ls.len()
        invariant
            k <= ls@.len(),
            lv == label_views(ls@),
            first_label_match(lv, name@, position, 0) == first_label_match(lv, name@, position, k as int),
        decreases ls@.len() - k,
    {
        assert(lv[k as int] == label_view(ls@[k as int]));
        if label_matches_exec(&ls[k], name, position) {
            return Some(k);
        }
        k = k + 1;
    }
    None
}

/// The label that deleting `name` (at `position`, when given) removes: the first local
/// label with that text (within a tenth of a millimetre of the position), else the
/// first such global label; none when no label matches.
pub fn find_label_to_delete(
    labels: &Vec<PlacedLabel>,
    global_labels: &Vec<PlacedLabel>,
    name: &str,
    position: Option<GridPoint>,
) -> (r: Option<LabelDeletion>)
    ensures
        r == label_to_delete(label_views(labels@), label_views(global_labels@), name@, position),
        r matches Some(LabelDeletion::Local(i)) ==> i < labels@.len(),
        r matches Some(LabelDeletion::Global(j)) ==> j < global_labels@.len(),
{
    match first_label_match_exec(labels, name, position) {
        Some(i) => Some(LabelDeletion::Local(i)),
        None => match first_label_match_exec(global_labels, name, position) {
            Some(j) => Some(LabelDeletion::Global(j)),
            None => None,
        },
    }
}

/// Delete the label that `name` (at `position`) names, as `find_label_to_delete` picks
/// it; the other labels keep their order. Returns whether a label was deleted.
pub fn delete_label(
    labels: &mut Vec<PlacedLabel>,
    global_labels: &mut Vec<PlacedLabel>,
    name: &str,
    position: Option<GridPoint>,
) -> (deleted: bool)
    ensures
        deleted == (label_to_delete(label_views(old(labels)@), label_views(old(global_labels)@), name@, position) is Some),
        match label_to_delete(label_views(old(labels)@), label_views(old(global_labels)@), name@, position) {
            Some(LabelDeletion::Local(i)) => final(labels)@ == old(labels)@.remove(i as int) && final(global_labels)@ == old(global_labels)@,
            Some(LabelDeletion::Global(j)) => final(labels)@ == old(labels)@ && final(global_labels)@
                == old(global_labels)@.remove(j as int),
            None => final(labels)@ == old(labels)@ && final(global_labels)@ == old(global_labels)@,
        },
{
    match find_label_to_delete(labels, global_labels, name, position) {
        Some(LabelDeletion::Local(i)) => {
            labels.remove(i);
            true
        },
        Some(LabelDeletion::Global(j)) => {
            global_labels.remove(j);
            true
        },
        None => false,
    }
}

/// `a` modulo `m` with the sign of `a`, as Rust's `%` computes it.
pub open spec fn trunc_rem(a: int, m: int) -> int {
    if a >= 0 {
        a % m
    } else {
        -((-a) % m)
    }
}

/// The direction a label at a pin takes: the pin's own direction, reduced to a quarter
/// turn in [0, 360) when it is one; any other direction unchanged.
pub open spec fn label_angle_for(pin_angle: int) -> int {
    let r = trunc_rem(pin_angle, 360);
    if r == 0 || r == 90 || r == 180 || r == 270 {
        r
    } else {
        pin_angle
    }
}

/// Auto-detect label angle from pin direction: the label faces the way the pin points.
pub fn angle_from_pin_direction(pin_angle: i32) -> (r: i32)
    ensures
        r == label_angle_for(pin_angle as int),
{
    let a = pin_angle as i64;
    let r: i64 = if a >= 0 {
        a % 360
    } else {
        -((-a) % 360)
    };
    if r == 0 || r == 90 || r == 180 || r == 270 {
        r as i32
    } else {
        pin_angle
    }
}

/// Where a new label goes.
#[derive(Debug, Clone)]
pub enum LabelLocation {
    /// At a pin, facing the way the pin points
    Pin { reference: String, pin: String },
    /// At a point, with a direction in degrees
    Position { at: GridPoint, angle: i32 },
}

impl LabelLocation {
    /// At pin `pin` of component `reference`.
    pub fn pin(reference: &str, pin: &str) -> (r: Self)
        ensures
            r matches LabelLocation::Pin { reference: a, pin: b } && a@ == reference@ && b@ == pin@,
    {
        LabelLocation::Pin { reference: String::from_str(reference), pin: String::from_str(pin) }
    }

    /// At the point `x`, `y` (grid units), facing `angle` degrees.
    pub fn position(x: i32, y: i32, angle: i32) -> (r: Self)
        ensures
            r == (LabelLocation::Position { at: GridPoint { x, y }, angle }),
    {
        LabelLocation::Position { at: GridPoint { x, y }, angle }
    }
}

/// Command to add a label to a schematic
#[derive(Debug, Clone)]
pub struct AddLabelCommand {
    /// The label text
    pub text: String,
    /// Where to place the label
    pub location: LabelLocation,
    /// Whether this is a global label (true) or local label (false)
    pub global: bool,
    /// Shape for global labels (ignored if global=false)
    pub shape: LabelShape,
}

/// Result of adding a label: its text, where it was asked to go (before snapping) and
/// its direction, and whether it is global.
#[derive(Debug, Clone)]
pub struct AddLabelResult {
    pub text: String,
    pub position: GridPoint,
    pub angle: i32,
    pub global: bool,
}

/// Where a label at `loc` goes and which way it faces: at a pin, where the first
/// component with the reference has its first pin of that number or name, facing as
/// `label_angle_for` that pin's direction; at a point, there.
pub open spec fn label_place(loc: LabelLocation, items: SchematicItems) -> Option<(GridPoint, int)> {
    match loc {
        LabelLocation::Pin { reference, pin } => match first_with_reference(items.components@, reference@, 0) {
            Some(i) => match pin_index(items.components@[i].pins@, pin@, 0) {
                Some(k) => Some(
                    (
                        items.components@[i].pins@[k].position,
                        label_angle_for(items.components@[i].pins@[k].angle as int),
                    ),
                ),
                None => None,
            },
            None => None,
        },
        LabelLocation::Position { at, angle } => Some((at, angle as int)),
    }
}

/// The label that adding puts on the sheet: the text, snapped to the grid, the
/// direction, and the shape (a global label's only).
pub open spec fn added_label(l: PlacedLabel, text: Seq<char>, at: GridPoint, angle: int, shape: Option<LabelShape>) -> bool {
    &&& l.text@ == text
    &&& l.position == snap_point(at)
    &&& l.angle == angle
    &&& l.shape == shape
}

impl SchematicItems {
    /// Add a local label snapped to the grid.
    pub fn add_label(&mut self, text: &str, at: GridPoint, angle: i32)
        ensures
            final(self).labels@.len() == old(self).labels@.len() + 1,
            final(self).labels@.drop_last() == old(self).labels@,
            added_label(final(self).labels@.last(), text@, at, angle as int, None),
            final(self).lib_symbols == old(self).lib_symbols,
            final(self).components == old(self).components,
            final(self).wires == old(self).wires,
            final(self).global_labels == old(self).global_labels,
            final(self).junctions == old(self).junctions,
    {
        let p = snap_point_to_grid(at);
        assert(p == snap_point(at));
        let ghost before = self.labels@;
        self.labels.push(PlacedLabel { text: String::from_str(text), position: p, angle, shape: None });
        assert(self.labels@.drop_last() =~= before);
    }

    /// Add a global label with a shape, snapped to the grid.
    pub fn add_global_label(&mut self, text: &str, at: GridPoint, angle: i32, shape: LabelShape)
        ensures
            final(self).global_labels@.len() == old(self).global_labels@.len() + 1,
            final(self).global_labels@.drop_last() == old(self).global_labels@,
            added_label(final(self).global_labels@.last(), text@, at, angle as int, Some(shape)),
            final(self).lib_symbols == old(self).lib_symbols,
            final(self).components == old(self).components,
            final(self).wires == old(self).wires,
            final(self).labels == old(self).labels,
            final(self).junctions == old(self).junctions,
    {
        let p = snap_point_to_grid(at);
        assert(p == snap_point(at));
        let ghost before = self.global_labels@;
        self.global_labels.push(PlacedLabel { text: String::from_str(text), position: p, angle, shape: Some(shape) });
        assert(self.global_labels@.drop_last() =~= before);
    }
}

impl AddLabelCommand {
    /// Add the label, local or global, at its place snapped to the grid; when the place
    /// is a pin that cannot be found, its error and nothing changes.
    pub fn execute(self, items: &mut SchematicItems) -> (r: Result<AddLabelResult, CommandError>)
        ensures
            match label_place(self.location, *old(items)) {
                None => {
                    &&& *final(items) == *old(items)
                    &&& r matches Err(e)
                    &&& self.location matches LabelLocation::Pin { reference, pin }
                    &&& pin_endpoint_error(*old(items), reference@, pin@, e)
                },
                Some(place) => {
                    &&& r matches Ok(o)
                    &&& o.text@ == self.text@ && o.position == place.0 && o.angle == place.1
                    &&& o.global == self.global
                    &&& final(items).lib_symbols == old(items).lib_symbols
                    &&& final(items).components == old(items).components
                    &&& final(items).wires == old(items).wires
                    &&& final(items).junctions == old(items).junctions
                    &&& if self.global {
                        &&& final(items).labels == old(items).labels
                        &&& final(items).global_labels@.drop_last() == old(items).global_labels@
                        &&& final(items).global_labels@.len() == old(items).global_labels@.len() + 1
                        &&& added_label(final(items).global_labels@.last(), self.text@, place.0, place.1, Some(self.shape))
                    } else {
                        &&& final(items).global_labels == old(items).global_labels
                        &&& final(items).labels@.drop_last() == old(items).labels@
                        &&& final(items).labels@.len() == old(items).labels@.len() + 1
                        &&& added_label(final(items).labels@.last(), self.text@, place.0, place.1, None)
                    }
                },
            },
    {
        let (at, angle) = match &self.location {
            LabelLocation::Pin { reference, pin } => {
                match items.find_symbol_by_reference(reference.as_str()) {
                    Some(c) => match c.find_pin(pin.as_str()) {
                        Some(p) => (p.position, angle_from_pin_direction(p.angle)),
                        None => {
                            return Err(
                                CommandError::PinNotFound { reference: reference.clone(), pin: pin.clone() },
                            );
                        },
                    },
                    None => {
                        return Err(CommandError::SymbolNotFound(reference.clone()));
                    },
                }
            },
            LabelLocation::Position { at, angle } => (*at, *angle),
        };
        if self.global {
            items.add_global_label(self.text.as_str(), at, angle, self.shape);
        } else {
            items.add_label(self.text.as_str(), at, angle);
        }
        Ok(AddLabelResult { text: self.text, position: at, angle, global: self.global })
    }
}

/// Command to delete a label from a schematic
#[derive(Debug, Clone)]
pub struct DeleteLabelCommand {
    /// Label text to delete
    pub name: String,
    /// Optional position to disambiguate multiple labels with the same name
    pub position: Option<GridPoint>,
}

impl DeleteLabelCommand {
    /// Delete the label; `LabelNotFound` with the name and position when no label
    /// matches, in which case nothing changes.
    pub fn execute(self, labels: &mut Vec<PlacedLabel>, global_labels: &mut Vec<PlacedLabel>) -> (r: Result<
        (),
        CommandError,
    >)
        ensures
            match label_to_delete(label_views(old(labels)@), label_views(old(global_labels)@), self.name@, self.position) {
                Some(LabelDeletion::Local(i)) => r is Ok && final(labels)@ == old(labels)@.remove(i as int) && final(global_labels)@ == old(global_labels)@,
                Some(LabelDeletion::Global(j)) => r is Ok && final(labels)@ == old(labels)@ && final(global_labels)@
                    == old(global_labels)@.remove(j as int),
                None => {
                    &&& final(labels)@ == old(labels)@
                    &&& final(global_labels)@ == old(global_labels)@
                    &&& r matches Err(CommandError::LabelNotFound { name, position })
                    &&& name@ == self.name@
                    &&& position == self.position
                },
            },
    {
        if !delete_label(labels, global_labels, self.name.as_str(), self.position) {
            return Err(CommandError::LabelNotFound { name: self.name, position: self.position });
        }
        Ok(())
    }
}

/// Deleting a label leaves every other label as it was, and removes one only when a
/// label matches.
pub proof fn lemma_deleted_label_matched(
    labels: Seq<(Seq<char>, GridPoint)>,
    global_labels: Seq<(Seq<char>, GridPoint)>,
    name: Seq<char>,
    position: Option<GridPoint>,
)
    requires
        labels.len() <= usize::MAX,
        global_labels.len() <= usize::MAX,
    ensures
        match label_to_delete(labels, global_labels, name, position) {
            Some(LabelDeletion::Local(i)) => 0 <= i < labels.len() && label_matches(labels[i as int], name, position)
                && forall|k: int| 0 <= k < i ==> !label_matches(#[trigger] labels[k], name, position),
            Some(LabelDeletion::Global(j)) => 0 <= j < global_labels.len() && label_matches(
                global_labels[j as int],
                name,
                position,
            ) && (forall|k: int| 0 <= k < labels.len() ==> !label_matches(#[trigger] labels[k], name, position))
                && forall|k: int| 0 <= k < j ==> !label_matches(#[trigger] global_labels[k], name, position),
            None => (forall|k: int| 0 <= k < labels.len() ==> !label_matches(#[trigger] labels[k], name, position))
                && forall|k: int| 0 <= k < global_labels.len() ==> !label_matches(
                    #[trigger] global_labels[k],
                    name,
                    position,
                ),
        },
{
    lemma_first_label_match(labels, name, position, 0);
    lemma_first_label_match(global_labels, name, position, 0);
    match first_label_match(labels, name, position, 0) {
        Some(i) => {
            assert((i as usize) as int == i);
        },
        None => {
            match first_label_match(global_labels, name, position, 0) {
                Some(j) => {
                    assert((j as usize) as int == j);
                },
                None => {},
            }
        },
    }
}

proof fn lemma_first_label_match(
    ls: Seq<(Seq<char>, GridPoint)>,
    name: Seq<char>,
    position: Option<GridPoint>,
    k: int,
)
    requires
        0 <= k,
    ensures
        match first_label_match(ls, name, position, k) {
            Some(i) => k <= i < ls.len() && label_matches(ls[i], name, position) && forall|q: int|
                k <= q < i ==> !label_matches(#[trigger] ls[q], name, position),
            None => forall|q: int| k <= q < ls.len() ==> !label_matches(#[trigger] ls[q], name, position),
        },
    decreases ls.len() - k,
{
    if k < ls.len() && !label_matches(ls[k], name, position) {
        lemma_first_label_match(ls, name, position, k + 1);
    }
}

} // verus!
