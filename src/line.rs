use vstd::prelude::*;

verus! {

pub open spec fn abs_int(v: int) -> int {
    if v < 0 {
        -v
    } else {
        v
    }
}

/// The line is steep: it rises more than it runs, so the walk steps along y.
pub open spec fn is_steep(x1: int, y1: int, x2: int, y2: int) -> bool {
    abs_int(x1 - x2) < abs_int(y1 - y2)
}

/// The endpoints in walk coordinates `(a1, b1, a2, b2)`: `a` along the axis
/// the walk steps on, `b` across it. The endpoint with the smaller `(b, a)`,
/// compared lexicographically, comes first.
pub open spec fn walk_ends(x1: int, y1: int, x2: int, y2: int) -> (int, int, int, int) {
    let (a1, b1, a2, b2) = if is_steep(x1, y1, x2, y2) {
        (y1, x1, y2, x2)
    } else {
        (x1, y1, x2, y2)
    };
    if b2 < b1 || (b2 == b1 && a2 < a1) {
        (a2, b2, a1, b1)
    } else {
        (a1, b1, a2, b2)
    }
}

/// The pixels of a line and the axis it was walked on.
#[derive(Debug, Clone)]
pub struct LineWalk {
    /// Pixels `(x, y)` in the order drawn.
    pub pixels: Vec<(i32, i32)>,
    /// The walk stepped along y.
    pub steep: bool,
}

/// Pixel `k` of the walk, in walk coordinates: `a` steps by one from `a1`
/// towards `a2`, and `b` is the nearest to the ideal line (ties to the lower).
pub open spec fn walk_pixel_ok(a1: int, b1: int, a2: int, b2: int, k: int, a: int, b: int) -> bool {
    let dx = abs_int(a2 - a1);
    let dy = b2 - b1;
    &&& a == if a1 <= a2 {
        a1 + k
    } else {
        a1 - 1 - k
    }
    &&& 2 * dx * (b - b1) - dx < 2 * dy * k
    &&& 2 * dy * k <= 2 * dx * (b - b1) + dx
}

/// Midpoint line walk between two endpoints (already clipped to the
/// viewport), stepping one pixel at a time along the longer axis.
pub fn line_pixels(x1: i32, y1: i32, x2: i32, y2: i32) -> (r: LineWalk)
    ensures
        r.steep == is_steep(x1 as int, y1 as int, x2 as int, y2 as int),
        ({
            let (a1, b1, a2, b2) = walk_ends(x1 as int, y1 as int, x2 as int, y2 as int);
            &&& r.pixels@.len() == abs_int(a2 - a1)
            &&& forall|k: int|
                0 <= k < r.pixels@.len() ==> {
                    let p = #[trigger] r.pixels@[k];
                    if r.steep {
                        walk_pixel_ok(a1, b1, a2, b2, k, p.1 as int, p.0 as int)
                    } else {
                        walk_pixel_ok(a1, b1, a2, b2, k, p.0 as int, p.1 as int)
                    }
                }
        }),
{
    let (mut x1, mut y1, mut x2, mut y2) = (x1 as i128, y1 as i128, x2 as i128, y2 as i128);
    let adx = if x1 > x2 {
        x1 - x2
    } else {
        x2 - x1
    };
    let ady = if y1 > y2 {
        y1 - y2
    } else {
        y2 - y1
    };
    let mut steep = false;
    if adx < ady {
        let (a1, b1, a2, b2) = (y1, x1, y2, x2);
        x1 = a1;
        y1 = b1;
        x2 = a2;
        y2 = b2;
        steep = true;
    }
    if x1 >= x2 && y1 >= y2 {
        let (a1, b1, a2, b2) = (x2, y2, x1, y1);
        x1 = a1;
        y1 = b1;
        x2 = a2;
        y2 = b2;
    }
    let mut reverse = false;
    if x1 > x2 {
        reverse = true;
    }
    if y1 > y2 {
        reverse = true;
        let (a1, b1, a2, b2) = (x2, y2, x1, y1);
        x1 = a1;
        y1 = b1;
        x2 = a2;
        y2 = b2;
    }
    let dx = if reverse {
        x1 - x2
    } else {
        x2 - x1
    };
    assert(reverse == (x1 > x2));
    let kx = 2 * dx;
    let ky = 2 * (y2 - y1);
    let mut y0 = y1;
    let mut delta: i128 = 0;
    let mut middle = dx;
    let mut pixels: Vec<(i32, i32)> = Vec::new();
    let mut k: i128 = 0;
    while k < dx
        invariant
            0 <= y2 - y1 <= dx,
            dx <= 0x1_0000_0000,
            dx == abs_int(x2 - x1),
            reverse == (x1 > x2),
            i32::MIN <= x1 <= i32::MAX,
            i32::MIN <= x2 <= i32::MAX,
            i32::MIN <= y1 <= i32::MAX,
            i32::MIN <= y2 <= i32::MAX,
            kx == 2 * dx,
            ky == 2 * (y2 - y1),
            0 <= k <= dx,
            pixels@.len() == k,
            delta == ky * k,
            middle == dx + kx * (y0 - y1),
            y1 <= y0 <= y1 + k,
            y0 <= y2,
            delta <= middle,
            y0 == y1 || delta > middle - kx,
            forall|j: int|
                0 <= j < k ==> {
                    let p = #[trigger] pixels@[j];
                    if steep {
                        walk_pixel_ok(x1 as int, y1 as int, x2 as int, y2 as int, j, p.1 as int, p.0 as int)
                    } else {
                        walk_pixel_ok(x1 as int, y1 as int, x2 as int, y2 as int, j, p.0 as int, p.1 as int)
                    }
                },
        decreases dx - k,
    {
        let a = if reverse {
            x1 - 1 - k
        } else {
            x1 + k
        };
        proof {
            assert(2 * dx * (y0 - y1) - dx < 2 * (y2 - y1) * k) by (nonlinear_arith)
                requires
                    y0 == y1 || delta > middle - kx,
                    delta == ky * k,
                    middle == dx + kx * (y0 - y1),
                    kx == 2 * dx,
                    ky == 2 * (y2 - y1),
                    y0 == y1 ==> 2 * (y2 - y1) * k >= 0,
                    dx > 0,
            ;
            assert(2 * (y2 - y1) * k >= 0) by (nonlinear_arith)
                requires
                    y2 - y1 >= 0,
                    k >= 0,
            ;
        }
        if steep {
            pixels.push((y0 as i32, a as i32));
        } else {
            pixels.push((a as i32, y0 as i32));
        }
        proof {
            assert(ky * k + ky == ky * (k + 1)) by (nonlinear_arith);
            assert(ky * (k + 1) <= 0x10_0000_0000_0000_0000) by (nonlinear_arith)
                requires
                    0 <= ky <= 2 * dx,
                    0 <= k < dx,
                    dx <= 0x1_0000_0000,
            ;
            assert(kx * (y0 - y1 + 1) <= 0x10_0000_0000_0000_0000) by (nonlinear_arith)
                requires
                    kx == 2 * dx,
                    0 <= y0 - y1 <= k,
                    0 <= k < dx,
                    dx <= 0x1_0000_0000,
            ;
            assert(kx * (y0 - y1 + 1) == kx * (y0 - y1) + kx) by (nonlinear_arith);
        }
        delta = delta + ky;
        if delta > middle {
            y0 = y0 + 1;
            middle = middle + kx;
            assert(middle == dx + kx * (y0 - y1)) by (nonlinear_arith)
                requires
                    middle == dx + kx * (y0 - 1 - y1) + kx,
            ;
            assert(y0 <= y2) by (nonlinear_arith)
                requires
                    delta > dx + kx * (y0 - 1 - y1),
                    delta == 2 * (y2 - y1) * (k + 1),
                    kx == 2 * dx,
                    k + 1 <= dx,
                    y2 - y1 >= 0,
                    dx >= 0,
                    y0 - 1 - y1 >= 0,
                    y0 - 1 <= y2,
            ;
        }
        k = k + 1;
    }
    LineWalk { pixels, steep }
}

} // verus!
