//! Where a wire attaches to a pin of a placed symbol, for pins and symbols turned by
//! quarter turns.
use vstd::prelude::*;
use crate::outline_nets::GridPoint;
use crate::schematic::Mirror;

verus! {

/// A pin of a library symbol: where its body starts, in grid units relative to the
/// symbol, the direction it points in degrees, and its length in grid units.
#[derive(Debug, Clone, Copy)]
pub struct LibPinGeometry {
    pub x: i32,
    pub y: i32,
    pub angle: i32,
    pub length: i32,
}

/// A placed symbol: its position in grid units, rotation in degrees and mirroring.
#[derive(Debug, Clone, Copy)]
pub struct Placement {
    pub x: i32,
    pub y: i32,
    pub angle: i32,
    pub mirror: Option<Mirror>,
}

/// The number of quarter turns of an angle, 0 to 3, when it is a whole number of them.
pub open spec fn quarter_turns(deg: int) -> Option<int> {
    if deg % 90 == 0 {
        Some((deg / 90) % 4)
    } else {
        None
    }
}

/// Cosine and sine of a whole number of quarter turns.
pub open spec fn cos_q(q: int) -> int {
    if q == 0 {
        1
    } else if q == 2 {
        -1
    } else {
        0
    }
}

pub open spec fn sin_q(q: int) -> int {
    if q == 1 {
        1
    } else if q == 3 {
        -1
    } else {
        0
    }
}

/// Where a wire attaches to pin `p` of a symbol placed at `s`: the pin's far end (its
/// start moved back along its direction by its length, y pointing down), mirrored,
/// turned by the symbol's rotation and moved to the symbol's position. None when an
/// angle is not a whole number of quarter turns.
pub open spec fn pin_tip(p: LibPinGeometry, s: Placement) -> Option<(int, int)> {
    match (quarter_turns(p.angle as int), quarter_turns(s.angle as int)) {
        (Some(pq), Some(sq)) => {
            let tx = p.x - p.length * cos_q(pq);
            let ty = p.y + p.length * sin_q(pq);
            let (mx, my) = match s.mirror {
                Some(Mirror::X) => (tx, -ty),
                Some(Mirror::Y) => (-tx, ty),
                None => (tx, ty),
            };
            Some((mx * cos_q(sq) - my * sin_q(sq) + s.x, mx * sin_q(sq) + my * cos_q(sq) + s.y))
        },
        _ => None,
    }
}

/// The direction a placed pin points in, in degrees: the pin's angle plus the
/// symbol's rotation (minus it for a mirrored symbol), remainder by 360 taken with the
/// sign of the sum.
pub open spec fn pin_world_angle(p: LibPinGeometry, s: Placement) -> int {
    let a = if s.mirror is Some {
        p.angle - s.angle
    } else {
        p.angle + s.angle
    };
    if a >= 0 {
        a % 360
    } else {
        -((-a) % 360)
    }
}

proof fn lemma_shift_by_turns(d: int, k: int)
    requires
        k >= 0,
    ensures
        (d + 360 * k) % 90 == d % 90,
        d % 90 == 0 ==> ((d + 360 * k) / 90) % 4 == (d / 90) % 4,
{
    assert((d + 360 * k) % 90 == d % 90) by (nonlinear_arith)
        requires
            k >= 0,
    ;
    if d % 90 == 0 {
        assert((d + 360 * k) / 90 == d / 90 + 4 * k) by (nonlinear_arith)
            requires
                d % 90 == 0,
                k >= 0,
        ;
        assert((d / 90 + 4 * k) % 4 == (d / 90) % 4) by (nonlinear_arith)
            requires
                k >= 0,
        ;
    }
}

fn quarter_turns_exec(deg: i32) -> (r: Option<i64>)
    ensures
        match quarter_turns(deg as int) {
            Some(q) => r == Some(q as i64),
            None => r is None,
        },
        r matches Some(q) ==> 0 <= q < 4,
{
    let k: i64 = 6_000_000;
    let d: i64 = deg as i64 + 360 * k;
    proof {
        lemma_shift_by_turns(deg as int, k as int);
    }
    if d % 90 != 0 {
        return None;
    }
    Some((d / 90) % 4)
}

/// A point turned by `q` quarter turns.
fn turn(x: i64, y: i64, q: i64) -> (r: (i64, i64))
    requires
        0 <= q < 4,
        -0x4_0000_0000 <= x <= 0x4_0000_0000,
        -0x4_0000_0000 <= y <= 0x4_0000_0000,
    ensures
        r.0 == x * cos_q(q as int) - y * sin_q(q as int),
        r.1 == x * sin_q(q as int) + y * cos_q(q as int),
        -0x4_0000_0000 <= r.0 <= 0x4_0000_0000,
        -0x4_0000_0000 <= r.1 <= 0x4_0000_0000,
{
    if q == 0 {
        assert(cos_q(0) == 1 && sin_q(0) == 0);
        assert(x * cos_q(q as int) == x && y * sin_q(q as int) == 0);
        assert(x * sin_q(q as int) == 0 && y * cos_q(q as int) == y);
        (x, y)
    } else if q == 1 {
        assert(cos_q(1) == 0 && sin_q(1) == 1);
        assert(x * cos_q(q as int) == 0 && y * sin_q(q as int) == y);
        assert(x * sin_q(q as int) == x && y * cos_q(q as int) == 0);
        (-y, x)
    } else if q == 2 {
        assert(cos_q(2) == -1 && sin_q(2) == 0);
        assert(x * cos_q(q as int) == -x && y * sin_q(q as int) == 0);
        assert(x * sin_q(q as int) == 0 && y * cos_q(q as int) == -y);
        (-x, -y)
    } else {
        assert(cos_q(3) == 0 && sin_q(3) == -1);
        assert(x * cos_q(q as int) == 0 && y * sin_q(q as int) == -y);
        assert(x * sin_q(q as int) == -x && y * cos_q(q as int) == 0);
        (y, -x)
    }
}

/// The far end of a pin: its start moved back by its length along its direction.
fn pin_far_end(p: LibPinGeometry, q: i64) -> (r: (i64, i64))
    requires
        0 <= q < 4,
    ensures
        r.0 == p.x - p.length * cos_q(q as int),
        r.1 == p.y + p.length * sin_q(q as int),
        -0x1_0000_0000 <= r.0 <= 0x1_0000_0000,
        -0x1_0000_0000 <= r.1 <= 0x1_0000_0000,
{
    let x = p.x as i64;
    let y = p.y as i64;
    let len = p.length as i64;
    if q == 0 {
        assert(cos_q(0) == 1 && sin_q(0) == 0);
        assert(p.length * cos_q(q as int) == len && p.length * sin_q(q as int) == 0);
        (x - len, y)
    } else if q == 1 {
        assert(cos_q(1) == 0 && sin_q(1) == 1);
        assert(p.length * cos_q(q as int) == 0 && p.length * sin_q(q as int) == len);
        (x, y + len)
    } else if q == 2 {
        assert(cos_q(2) == -1 && sin_q(2) == 0);
        assert(p.length * cos_q(q as int) == -len && p.length * sin_q(q as int) == 0);
        (x + len, y)
    } else {
        assert(cos_q(3) == 0 && sin_q(3) == -1);
        assert(p.length * cos_q(q as int) == 0 && p.length * sin_q(q as int) == -len);
        (x, y - len)
    }
}

/// Where a wire attaches to a pin of a placed symbol, and the direction the pin points
/// in; none when an angle is not a whole number of quarter turns or the point falls
/// outside the grid's range.
pub fn pin_position(p: LibPinGeometry, s: Placement) -> (r: Option<(GridPoint, i32)>)
    ensures
        match pin_tip(p, s) {
            Some((x, y)) => if i32::MIN <= x <= i32::MAX && i32::MIN <= y <= i32::MAX {
                r matches Some((g, a)) && g.x == x && g.y == y && a == pin_world_angle(p, s)
            } else {
                r is None
            },
            None => r is None,
        },
{
    let pq = match quarter_turns_exec(p.angle) {
        Some(q) => q,
        None => return None,
    };
    let sq = match quarter_turns_exec(s.angle) {
        Some(q) => q,
        None => return None,
    };
    let (tx, ty) = pin_far_end(p, pq);
    let (mx, my): (i64, i64) = match s.mirror {
        Some(Mirror::X) => (tx, -ty),
        Some(Mirror::Y) => (-tx, ty),
        None => (tx, ty),
    };
    let (rx, ry) = turn(mx, my, sq);
    let wx: i64 = rx + s.x as i64;
    let wy: i64 = ry + s.y as i64;
    if wx < i32::MIN as i64 || wx > i32::MAX as i64 || wy < i32::MIN as i64 || wy > i32::MAX as i64 {
        return None;
    }
    let a: i64 = match s.mirror {
        Some(_) => p.angle as i64 - s.angle as i64,
        None => p.angle as i64 + s.angle as i64,
    };
    let wa: i64 = if a >= 0 {
        a % 360
    } else {
        -((-a) % 360)
    };
    Some((GridPoint { x: wx as i32, y: wy as i32 }, wa as i32))
}

} // verus!
