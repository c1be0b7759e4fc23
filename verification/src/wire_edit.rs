//! Deleting the wire that passes at or near a point.
use vstd::prelude::*;
use crate::commands::CommandError;
use crate::component_edit::{pin_endpoint_error, pin_endpoint_point, resolve_endpoint, SchematicItems};
use crate::outline_nets::GridPoint;
use crate::schematic::RoutingMode;

verus! {

/// A wire passes near a point closer than 1.27 mm (one grid step): the square of that
/// distance in grid units.
pub const WIRE_TOLERANCE_SQ: i128 = 161_290_000;

/// A segment shorter than a hundredth of a millimetre counts as a point: the square of
/// that length in grid units.
pub const POINT_SEGMENT_SQ: i128 = 10_000;

pub open spec fn sq_dist(a: GridPoint, b: GridPoint) -> int {
    (a.x - b.x) * (a.x - b.x) + (a.y - b.y) * (a.y - b.y)
}

/// Whether `p` lies closer than 1.27 mm to the segment from `a` to `b`: to its nearest
/// end when the foot of the perpendicular falls outside the segment, to the line through
/// it otherwise (there the squared distance is `cross² / len²`).
pub open spec fn near_segment(p: GridPoint, a: GridPoint, b: GridPoint) -> bool {
    let dx = b.x - a.x;
    let dy = b.y - a.y;
    let len_sq = dx * dx + dy * dy;
    let ex = p.x - a.x;
    let ey = p.y - a.y;
    let dot = ex * dx + ey * dy;
    let cross = ex * dy - ey * dx;
    if len_sq < POINT_SEGMENT_SQ || dot <= 0 {
        sq_dist(p, a) < WIRE_TOLERANCE_SQ
    } else if dot >= len_sq {
        sq_dist(p, b) < WIRE_TOLERANCE_SQ
    } else {
        cross * cross < WIRE_TOLERANCE_SQ * len_sq
    }
}

/// Whether one of the wire's segments passes near `p`.
pub open spec fn wire_near(w: Seq<GridPoint>, p: GridPoint) -> bool {
    exists|i: int| 0 <= i && i + 1 < w.len() && #[trigger] near_segment(p, w[i], w[i + 1])
}

/// The first wire from `k` on that passes near `p`.
pub open spec fn first_wire_near(ws: Seq<Vec<GridPoint>>, p: GridPoint, k: int) -> Option<int>
    decreases ws.len() - k,
{
    if k < 0 || k >= ws.len() {
        None
    } else if wire_near(ws[k]@, p) {
        Some(k)
    } else {
        first_wire_near(ws, p, k + 1)
    }
}

proof fn lemma_square_bound(v: i128, m: i128)
    requires
        -m <= v <= m,
        0 <= m,
    ensures
        0 <= v * v <= m * m,
{
    assert(0 <= v * v <= m * m) by (nonlinear_arith)
        requires
            -m <= v <= m,
            0 <= m,
    ;
}

fn near_segment_exec(p: GridPoint, a: GridPoint, b: GridPoint) -> (r: bool)
    ensures
        r == near_segment(p, a, b),
{
    let m: i128 = 0x1_0000_0000;
    let dx: i128 = b.x as i128 - a.x as i128;
    let dy: i128 = b.y as i128 - a.y as i128;
    let ex: i128 = p.x as i128 - a.x as i128;
    let ey: i128 = p.y as i128 - a.y as i128;
    let fx: i128 = p.x as i128 - b.x as i128;
    let fy: i128 = p.y as i128 - b.y as i128;
    proof {
        lemma_square_bound(dx, m);
        lemma_square_bound(dy, m);
        lemma_square_bound(ex, m);
        lemma_square_bound(ey, m);
        lemma_square_bound(fx, m);
        lemma_square_bound(fy, m);
        assert(-m * m <= ex * dx <= m * m) by (nonlinear_arith)
            requires
                -m <= ex <= m,
                -m <= dx <= m,
                m > 0,
        ;
        assert(-m * m <= ey * dy <= m * m) by (nonlinear_arith)
            requires
                -m <= ey <= m,
                -m <= dy <= m,
                m > 0,
        ;
        assert(-m * m <= ex * dy <= m * m) by (nonlinear_arith)
            requires
                -m <= ex <= m,
                -m <= dy <= m,
                m > 0,
        ;
        assert(-m * m <= ey * dx <= m * m) by (nonlinear_arith)
            requires
                -m <= ey <= m,
                -m <= dx <= m,
                m > 0,
        ;
    }
    let len_sq: i128 = dx * dx + dy * dy;
    let near_a = ex * ex + ey * ey < WIRE_TOLERANCE_SQ;
    if len_sq < POINT_SEGMENT_SQ {
        return near_a;
    }
    let dot: i128 = ex * dx + ey * dy;
    if dot <= 0 {
        return near_a;
    }
    if dot >= len_sq {
        return fx * fx + fy * fy < WIRE_TOLERANCE_SQ;
    }
    let cross: i128 = ex * dy - ey * dx;
    let bound: i128 = 0x8000_0000_0000;
    if cross >= bound || cross <= -bound {
        proof {
            assert(cross * cross >= bound * bound) by (nonlinear_arith)
                requires
                    cross >= bound || cross <= -bound,
                    bound > 0,
            ;
            assert(WIRE_TOLERANCE_SQ * len_sq < bound * bound) by (nonlinear_arith)
                requires
                    0 <= len_sq <= 2 * m * m,
                    m == 0x1_0000_0000,
                    bound == 0x8000_0000_0000,
            ;
        }
        return false;
    }
    proof {
        lemma_square_bound(cross, bound);
        assert(WIRE_TOLERANCE_SQ * len_sq <= WIRE_TOLERANCE_SQ * (2 * m * m)) by (nonlinear_arith)
            requires
                0 <= len_sq <= 2 * m * m,
        ;
    }
    cross * cross < WIRE_TOLERANCE_SQ * len_sq
}

pub(crate) fn wire_near_exec(w: &Vec<GridPoint>, p: GridPoint) -> (r: bool)
    ensures
        r == wire_near(w@, p),
{
    let n = w.len();
    if n < 2 {
        return false;
    }
    let mut i: usize = 0;
    while i + 1 < n
        invariant
            n == w@.len(),
            n >= 2,
            i + 1 <= n,
            forall|j: int| 0 <= j < i ==> !#[trigger] near_segment(p, w@[j], w@[j + 1]),
        decreases n - i,
    {
        if near_segment_exec(p, w[i], w[i + 1]) {
            return true;
        }
        i = i + 1;
    }
    false
}

/// Delete the first wire with a segment passing closer than 1.27 mm to `point`; the
/// other wires keep their order. Returns whether a wire was deleted.
pub fn delete_wire_at(wires: &mut Vec<Vec<GridPoint>>, point: GridPoint) -> (deleted: bool)
    ensures
        deleted == (first_wire_near(old(wires)@, point, 0) is Some),
        match first_wire_near(old(wires)@, point, 0) {
            Some(i) => final(wires)@ == old(wires)@.remove(i),
            None => final(wires)@ == old(wires)@,
        },
{
    let ghost ws = wires@;
    let mut k: usize = 0;
    while k < wires.len()
        invariant
            k <= ws.len(),
            ws == wires@,
            ws == old(wires)@,
            first_wire_near(ws, point, 0) == first_wire_near(ws, point, k as int),
        decreases ws.len() - k,
    {
        if wire_near_exec(&wires[k], point) {
            assert(wire_near(ws[k as int]@, point));
            assert(first_wire_near(ws, point, k as int) == Some(k as int));
            wires.remove(k);
            assert(wires@ == ws.remove(k as int));
            return true;
        }
        assert(!wire_near(ws[k as int]@, point));
        k = k + 1;
    }
    assert(first_wire_near(ws, point, k as int) is None);
    false
}

/// Command to delete a wire from a schematic
#[derive(Debug, Clone, Copy)]
pub struct DeleteWireCommand {
    /// Point on or near the wire to delete
    pub point: GridPoint,
}

impl DeleteWireCommand {
    /// Delete the wire; `WireNotFound` with the point when no wire passes near it, in
    /// which case nothing changes.
    pub fn execute(self, wires: &mut Vec<Vec<GridPoint>>) -> (r: Result<(), CommandError>)
        ensures
            match first_wire_near(old(wires)@, self.point, 0) {
                Some(i) => r is Ok && final(wires)@ == old(wires)@.remove(i),
                None => {
                    &&& final(wires)@ == old(wires)@
                    &&& r matches Err(CommandError::WireNotFound(p))
                    &&& p == self.point
                },
            },
    {
        if !delete_wire_at(wires, self.point) {
            return Err(CommandError::WireNotFound(self.point));
        }
        Ok(())
    }
}

/// One grid step, 1.27 mm (50 mil), in grid units.
pub const GRID_STEP: i64 = 12700;

/// The grid line nearest to `v`, halves rounded away from zero.
pub open spec fn snap_spec(v: int) -> int {
    let g = GRID_STEP as int;
    if v >= 0 {
        ((v + g / 2) / g) * g
    } else {
        -((((-v) + g / 2) / g) * g)
    }
}

/// Snap a coordinate to the 1.27 mm grid.
pub fn snap_to_grid(v: i32) -> (r: i32)
    ensures
        r == snap_spec(v as int),
{
    let w = v as i64;
    let g: i64 = GRID_STEP;
    let a: i64 = if w >= 0 {
        w + g / 2
    } else {
        -w + g / 2
    };
    let q: i64 = a / g;
    proof {
        assert(0 <= q <= 169093) by (nonlinear_arith)
            requires
                0 <= a <= 0x8000_0000 + 6350,
                g == 12700,
                q == a / g,
        ;
    }
    let m: i64 = q * g;
    let r: i64 = if w >= 0 {
        m
    } else {
        -m
    };
    r as i32
}

/// Snap a point to the 1.27 mm grid.
pub fn snap_point_to_grid(p: GridPoint) -> (r: GridPoint)
    ensures
        r.x == snap_spec(p.x as int),
        r.y == snap_spec(p.y as int),
{
    GridPoint { x: snap_to_grid(p.x), y: snap_to_grid(p.y) }
}

pub open spec fn snap_point(p: GridPoint) -> GridPoint {
    GridPoint { x: snap_spec(p.x as int) as i32, y: snap_spec(p.y as int) as i32 }
}

/// Two coordinates closer than a thousandth of a millimetre.
pub open spec fn aligned(a: int, b: int) -> bool {
    -10 < a - b < 10
}

/// The points of a wire from `from` to `to`, both snapped to the grid: straight for
/// direct routing; for orthogonal routing a corner at the end's x and the start's y
/// (vertical first: the start's x and the end's y), left out when the two ends are
/// already aligned.
pub open spec fn routed_points(from: GridPoint, to: GridPoint, mode: RoutingMode) -> Seq<GridPoint> {
    let f = snap_point(from);
    let t = snap_point(to);
    match mode {
        RoutingMode::Direct => seq![f, t],
        RoutingMode::Orthogonal => if aligned(t.x as int, f.x as int) || aligned(f.y as int, t.y as int) {
            seq![f, t]
        } else {
            seq![f, GridPoint { x: t.x, y: f.y }, t]
        },
        RoutingMode::OrthogonalVH => if aligned(t.y as int, f.y as int) || aligned(f.x as int, t.x as int) {
            seq![f, t]
        } else {
            seq![f, GridPoint { x: f.x, y: t.y }, t]
        },
    }
}

/// The points of a new wire from `from` to `to` with the given routing.
pub fn route_wire(from: GridPoint, to: GridPoint, mode: RoutingMode) -> (r: Vec<GridPoint>)
    ensures
        r@ == routed_points(from, to, mode),
{
    let f = snap_point_to_grid(from);
    let t = snap_point_to_grid(to);
    assert(f == snap_point(from) && t == snap_point(to));
    let mut r: Vec<GridPoint> = Vec::new();
    r.push(f);
    match mode {
        RoutingMode::Direct => {},
        RoutingMode::Orthogonal => {
            let dx = t.x as i64 - f.x as i64;
            let dy = f.y as i64 - t.y as i64;
            if !(-10 < dx && dx < 10) && !(-10 < dy && dy < 10) {
                r.push(GridPoint { x: t.x, y: f.y });
            }
        },
        RoutingMode::OrthogonalVH => {
            let dy = t.y as i64 - f.y as i64;
            let dx = f.x as i64 - t.x as i64;
            if !(-10 < dy && dy < 10) && !(-10 < dx && dx < 10) {
                r.push(GridPoint { x: f.x, y: t.y });
            }
        },
    }
    r.push(t);
    assert(r@ =~= routed_points(from, to, mode));
    r
}

impl SchematicItems {
    /// Add a wire from `from` to `to`, both snapped to the grid, routed as asked.
    pub fn add_wire_routed(&mut self, from: GridPoint, to: GridPoint, mode: RoutingMode)
        ensures
            final(self).wires@.len() == old(self).wires@.len() + 1,
            final(self).wires@.drop_last() == old(self).wires@,
            final(self).wires@.last()@ == routed_points(from, to, mode),
            final(self).lib_symbols == old(self).lib_symbols,
            final(self).components == old(self).components,
            final(self).labels == old(self).labels,
            final(self).global_labels == old(self).global_labels,
            final(self).junctions == old(self).junctions,
    {
        let w = route_wire(from, to, mode);
        let ghost before = self.wires@;
        self.wires.push(w);
        assert(self.wires@.drop_last() =~= before);
    }

    /// Add a straight wire between two points snapped to the grid.
    pub fn add_wire(&mut self, from: GridPoint, to: GridPoint)
        ensures
            final(self).wires@.len() == old(self).wires@.len() + 1,
            final(self).wires@.drop_last() == old(self).wires@,
            final(self).wires@.last()@ == seq![snap_point(from), snap_point(to)],
            final(self).lib_symbols == old(self).lib_symbols,
            final(self).components == old(self).components,
            final(self).labels == old(self).labels,
            final(self).global_labels == old(self).global_labels,
            final(self).junctions == old(self).junctions,
    {
        self.add_wire_routed(from, to, RoutingMode::Direct);
    }

    /// Add a junction at `position` snapped to the grid.
    pub fn add_junction(&mut self, position: GridPoint)
        ensures
            final(self).junctions@ == old(self).junctions@.push(snap_point(position)),
            final(self).lib_symbols == old(self).lib_symbols,
            final(self).components == old(self).components,
            final(self).wires == old(self).wires,
            final(self).labels == old(self).labels,
            final(self).global_labels == old(self).global_labels,
    {
        let p = snap_point_to_grid(position);
        assert(p == snap_point(position));
        self.junctions.push(p);
    }
}

/// One end of a new wire.
#[derive(Debug, Clone)]
pub enum WireEndpoint {
    /// A pin of a component, by reference and pin number or name
    Pin { reference: String, pin: String },
    /// A point on the schematic
    Point(GridPoint),
}

impl WireEndpoint {
    /// The pin `pin` of the component `reference`.
    pub fn pin(reference: &str, pin: &str) -> (r: Self)
        ensures
            r matches WireEndpoint::Pin { reference: a, pin: b } && a@ == reference@ && b@ == pin@,
    {
        WireEndpoint::Pin { reference: String::from_str(reference), pin: String::from_str(pin) }
    }

    /// The point at `x`, `y` (grid units).
    pub fn point(x: i32, y: i32) -> (r: Self)
        ensures
            r == WireEndpoint::Point(GridPoint { x, y }),
    {
        WireEndpoint::Point(GridPoint { x, y })
    }
}

/// Where a wire end lies: where the pin attaches, or the point itself.
pub open spec fn wire_end_point(e: WireEndpoint, items: SchematicItems) -> Option<GridPoint> {
    match e {
        WireEndpoint::Pin { reference, pin } => pin_endpoint_point(items, reference@, pin@),
        WireEndpoint::Point(p) => Some(p),
    }
}

/// Why a wire end lies nowhere.
pub open spec fn wire_end_error(e: WireEndpoint, items: SchematicItems, err: CommandError) -> bool {
    match e {
        WireEndpoint::Pin { reference, pin } => pin_endpoint_error(items, reference@, pin@, err),
        WireEndpoint::Point(_) => false,
    }
}

/// Command to add a wire to a schematic
#[derive(Debug, Clone)]
pub struct AddWireCommand {
    /// Starting endpoint of the wire
    pub from: WireEndpoint,
    /// Ending endpoint of the wire
    pub to: WireEndpoint,
    /// Routing mode for the wire
    pub routing: RoutingMode,
}

/// Result of adding a wire: where its two ends were found (before snapping).
#[derive(Debug, Clone, Copy)]
pub struct AddWireResult {
    pub from: GridPoint,
    pub to: GridPoint,
}

fn resolve_wire_end(items: &SchematicItems, e: &WireEndpoint) -> (r: Result<GridPoint, CommandError>)
    ensures
        match wire_end_point(*e, *items) {
            Some(p) => r == Ok::<GridPoint, CommandError>(p),
            None => r matches Err(err) && wire_end_error(*e, *items, err),
        },
{
    match e {
        WireEndpoint::Pin { reference, pin } => resolve_endpoint(items, reference.as_str(), pin.as_str()),
        WireEndpoint::Point(p) => Ok(*p),
    }
}

impl AddWireCommand {
    /// Add a wire between the two ends, snapped to the grid and routed as asked
    /// (`routed_points`); the error of the first end that lies nowhere otherwise, in
    /// which case nothing changes.
    pub fn execute(self, items: &mut SchematicItems) -> (r: Result<AddWireResult, CommandError>)
        ensures
            match wire_end_point(self.from, *old(items)) {
                None => {
                    &&& *final(items) == *old(items)
                    &&& r matches Err(e)
                    &&& wire_end_error(self.from, *old(items), e)
                },
                Some(a) => match wire_end_point(self.to, *old(items)) {
                    None => {
                    &&& *final(items) == *old(items)
                    &&& r matches Err(e)
                    &&& wire_end_error(self.to, *old(items), e)
                },
                    Some(b) => {
                        &&& r matches Ok(o)
                        &&& o.from == a && o.to == b
                        &&& final(items).wires@.len() == old(items).wires@.len() + 1
                        &&& final(items).wires@.drop_last() == old(items).wires@
                        &&& final(items).wires@.last()@ == routed_points(a, b, self.routing)
                        &&& final(items).lib_symbols == old(items).lib_symbols
                        &&& final(items).components == old(items).components
                        &&& final(items).labels == old(items).labels
                        &&& final(items).global_labels == old(items).global_labels
                        &&& final(items).junctions == old(items).junctions
                    },
                },
            },
    {
        let start = match resolve_wire_end(items, &self.from) {
            Ok(p) => p,
            Err(e) => return Err(e),
        };
        let end = match resolve_wire_end(items, &self.to) {
            Ok(p) => p,
            Err(e) => return Err(e),
        };
        items.add_wire_routed(start, end, self.routing);
        Ok(AddWireResult { from: start, to: end })
    }
}

/// Snapping lands on a grid line, at most half a step away, and snapping again changes
/// nothing.
pub proof fn lemma_snap_lands_on_grid(v: int)
    ensures
        snap_spec(v) % (GRID_STEP as int) == 0,
        -(GRID_STEP / 2) <= snap_spec(v) - v <= GRID_STEP / 2,
        snap_spec(snap_spec(v)) == snap_spec(v),
{
    let g = GRID_STEP as int;
    let h = g / 2;
    if v >= 0 {
        let q = (v + h) / g;
        assert(q * g <= v + h < q * g + g) by (nonlinear_arith)
            requires
                q == (v + h) / g,
                v >= 0,
                h == 6350,
                g == 12700,
        ;
        assert((q * g) % g == 0) by (nonlinear_arith)
            requires
                g == 12700,
        ;
        assert(q >= 0) by (nonlinear_arith)
            requires
                q == (v + h) / g,
                v >= 0,
                h == 6350,
                g == 12700,
        ;
        assert((q * g + h) / g == q) by (nonlinear_arith)
            requires
                q >= 0,
                h == 6350,
                g == 12700,
        ;
    } else {
        let q = ((-v) + h) / g;
        assert(q * g <= -v + h < q * g + g) by (nonlinear_arith)
            requires
                q == ((-v) + h) / g,
                v < 0,
                h == 6350,
                g == 12700,
        ;
        assert((-(q * g)) % g == 0) by (nonlinear_arith)
            requires
                g == 12700,
        ;
        assert(q >= 0) by (nonlinear_arith)
            requires
                q == ((-v) + h) / g,
                v < 0,
                h == 6350,
                g == 12700,
        ;
        assert((q * g + h) / g == q) by (nonlinear_arith)
            requires
                q >= 0,
                h == 6350,
                g == 12700,
        ;
    }
}

} // verus!
