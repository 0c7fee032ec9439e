use vstd::prelude::*;

verus! {

/// An integer point or displacement on the tile grid.
#[derive(Clone, Copy, PartialEq, Eq, Structural, Hash, Debug)]
pub struct Vector {
    pub x: i32,
    pub y: i32,
}

/// Halving as the machine divides: truncation toward zero.
pub open spec fn half_toward_zero(v: int) -> int {
    if v >= 0 {
        v / 2
    } else {
        -((-v) / 2)
    }
}

/// How far apart two coordinates are.
pub open spec fn span(u: i32, v: i32) -> int {
    if v >= u {
        v - u
    } else {
        u - v
    }
}

/// Whether the walk at progress `(ix, iy)` moves in `x` next: with both
/// spans unfinished, the side whose midpoint fraction lags moves first.
pub open spec fn line_steps_x(nx: int, ny: int, ix: int, iy: int) -> bool {
    if iy >= ny {
        true
    } else if ix >= nx {
        false
    } else {
        (1 + 2 * ix) * ny < (1 + 2 * iy) * nx
    }
}

/// The point reached after `ix` unit steps toward `b.x` and `iy` toward
/// `b.y`.
pub open spec fn line_point(a: Vector, b: Vector, ix: int, iy: int) -> Vector {
    Vector {
        x: (a.x + if b.x >= a.x {
            ix
        } else {
            -ix
        }) as i32,
        y: (a.y + if b.y >= a.y {
            iy
        } else {
            -iy
        }) as i32,
    }
}

/// The rest of the walk from progress `(ix, iy)`: the point reached so
/// far, then whatever one more step leads to, until both spans are spent.
pub open spec fn spec_line(a: Vector, b: Vector, ix: int, iy: int) -> Seq<Vector>
    decreases (span(a.x, b.x) - ix) + (span(a.y, b.y) - iy)
        when 0 <= ix <= span(a.x, b.x) && 0 <= iy <= span(a.y, b.y)
{
    let nx = span(a.x, b.x);
    let ny = span(a.y, b.y);
    if ix >= nx && iy >= ny {
        seq![line_point(a, b, ix, iy)]
    } else if line_steps_x(nx, ny, ix, iy) {
        seq![line_point(a, b, ix, iy)] + spec_line(a, b, ix + 1, iy)
    } else {
        seq![line_point(a, b, ix, iy)] + spec_line(a, b, ix, iy + 1)
    }
}

/// One step of the walk: with either span unfinished, the rest of the
/// walk is the current point followed by the walk from the stepped
/// progress.
proof fn lemma_spec_line_unfold(a: Vector, b: Vector, ix: int, iy: int)
    requires
        0 <= ix <= span(a.x, b.x),
        0 <= iy <= span(a.y, b.y),
        ix < span(a.x, b.x) || iy < span(a.y, b.y),
    ensures
        line_steps_x(span(a.x, b.x), span(a.y, b.y), ix, iy) ==> spec_line(a, b, ix, iy)
            == seq![line_point(a, b, ix, iy)] + spec_line(a, b, ix + 1, iy),
        !line_steps_x(span(a.x, b.x), span(a.y, b.y), ix, iy) ==> spec_line(a, b, ix, iy)
            == seq![line_point(a, b, ix, iy)] + spec_line(a, b, ix, iy + 1),
{
}

impl Vector {
    pub fn new(x: i32, y: i32) -> (r: Self)
        ensures
            r == (Vector { x, y }),
    {
        Vector { x, y }
    }

    /// The coordinates as a pair.
    pub fn tuple(&self) -> (r: (i32, i32))
        ensures
            r == (self.x, self.y),
    {
        (self.x, self.y)
    }

    /// Componentwise sum.
    pub fn add(self, rhs: Vector) -> (r: Vector)
        requires
            i32::MIN <= self.x + rhs.x <= i32::MAX,
            i32::MIN <= self.y + rhs.y <= i32::MAX,
        ensures
            r.x == self.x + rhs.x,
            r.y == self.y + rhs.y,
    {
        Vector { x: self.x + rhs.x, y: self.y + rhs.y }
    }

    /// Componentwise difference.
    pub fn sub(self, rhs: Vector) -> (r: Vector)
        requires
            i32::MIN <= self.x - rhs.x <= i32::MAX,
            i32::MIN <= self.y - rhs.y <= i32::MAX,
        ensures
            r.x == self.x - rhs.x,
            r.y == self.y - rhs.y,
    {
        Vector { x: self.x - rhs.x, y: self.y - rhs.y }
    }

    /// The midpoint, each coordinate halved toward zero.
    pub fn center(a: Vector, b: Vector) -> (r: Vector)
        requires
            i32::MIN < a.x + b.x <= i32::MAX,
            i32::MIN < a.y + b.y <= i32::MAX,
        ensures
            r.x == half_toward_zero(a.x + b.x),
            r.y == half_toward_zero(a.y + b.y),
    {
        let sx = a.x + b.x;
        let sy = a.y + b.y;
        let hx = if sx >= 0 {
            sx / 2
        } else {
            -((-sx) / 2)
        };
        let hy = if sy >= 0 {
            sy / 2
        } else {
            -((-sy) / 2)
        };
        Vector { x: hx, y: hy }
    }

    /// A grid walk from `a` to `b`: it starts at `a`, ends at `b`, takes
    /// exactly one unit step in `x` or `y` per point, and never leaves the
    /// bounding box of the two endpoints.
    #[verifier::rlimit(100)]
    pub fn line(a: &Vector, b: &Vector) -> (r: Vec<Vector>)
        requires
            i32::MIN < b.x - a.x <= i32::MAX,
            i32::MIN < b.y - a.y <= i32::MAX,
            (if b.x >= a.x { b.x - a.x } else { a.x - b.x }) + (if b.y >= a.y {
                b.y - a.y
            } else {
                a.y - b.y
            }) < usize::MAX,
        ensures
            r@ == spec_line(*a, *b, 0, 0),
            r@.len() == (if b.x >= a.x {
                b.x - a.x
            } else {
                a.x - b.x
            }) + (if b.y >= a.y {
                b.y - a.y
            } else {
                a.y - b.y
            }) + 1,
            r@[0] == *a,
            r@.last() == *b,
            forall|i: int|
                0 <= i < r@.len() ==> {
                    let p = #[trigger] r@[i];
                    &&& (if b.x >= a.x {
                        a.x <= p.x <= b.x
                    } else {
                        b.x <= p.x <= a.x
                    })
                    &&& (if b.y >= a.y {
                        a.y <= p.y <= b.y
                    } else {
                        b.y <= p.y <= a.y
                    })
                },
            forall|i: int|
                0 < i < r@.len() ==> {
                    let dx = (#[trigger] r@[i]).x - r@[i - 1].x;
                    let dy = r@[i].y - r@[i - 1].y;
                    (dx == 0 || dy == 0) && (if dx >= 0 {
                        dx
                    } else {
                        -dx
                    } + if dy >= 0 {
                        dy
                    } else {
                        -dy
                    }) == 1
                },
    {
        let dx = b.x - a.x;
        let dy = b.y - a.y;

        let nx: i32 = if dx >= 0 { dx } else { -dx };
        let ny: i32 = if dy >= 0 { dy } else { -dy };

        let sx: i32 = if dx > 0 { 1 } else if dx < 0 { -1 } else { 0 };
        let sy: i32 = if dy > 0 { 1 } else if dy < 0 { -1 } else { 0 };

        let mut points: Vec<Vector> = Vec::new();
        points.push(*a);

        let mut x = a.x;
        let mut y = a.y;

        let mut ix: i32 = 0;
        let mut iy: i32 = 0;

        while ix < nx || iy < ny
            invariant
                0 <= ix <= nx,
                0 <= iy <= ny,
                nx == (if b.x >= a.x {
                    b.x - a.x
                } else {
                    a.x - b.x
                }),
                ny == (if b.y >= a.y {
                    b.y - a.y
                } else {
                    a.y - b.y
                }),
                sx == (if b.x > a.x {
                    1int
                } else if b.x < a.x {
                    -1int
                } else {
                    0int
                }),
                sy == (if b.y > a.y {
                    1int
                } else if b.y < a.y {
                    0int - 1
                } else {
                    0int
                }),
                x == a.x + (if sx >= 0 {
                    ix as int
                } else {
                    -(ix as int)
                }),
                y == a.y + (if sy >= 0 {
                    iy as int
                } else {
                    -(iy as int)
                }),
                sx == 0 ==> ix == 0 && x == a.x,
                sy == 0 ==> iy == 0 && y == a.y,
                points@.len() == ix + iy + 1,
                points@[0] == *a,
                points@.last() == (Vector { x, y }),
                points@.last() == line_point(*a, *b, ix as int, iy as int),
                spec_line(*a, *b, 0, 0) == points@.drop_last() + spec_line(
                    *a,
                    *b,
                    ix as int,
                    iy as int,
                ),
                forall|i: int|
                    0 <= i < points@.len() ==> {
                        let p = #[trigger] points@[i];
                        &&& (if b.x >= a.x {
                            a.x <= p.x <= b.x
                        } else {
                            b.x <= p.x <= a.x
                        })
                        &&& (if b.y >= a.y {
                            a.y <= p.y <= b.y
                        } else {
                            b.y <= p.y <= a.y
                        })
                    },
                forall|i: int|
                    0 < i < points@.len() ==> {
                        let ddx = (#[trigger] points@[i]).x - points@[i - 1].x;
                        let ddy = points@[i].y - points@[i - 1].y;
                        (ddx == 0 || ddy == 0) && (if ddx >= 0 {
                            ddx
                        } else {
                            -ddx
                        } + if ddy >= 0 {
                            ddy
                        } else {
                            -ddy
                        }) == 1
                    },
            decreases (nx - ix) + (ny - iy),
        {
            let step_x = if iy >= ny {
                true
            } else if ix >= nx {
                false
            } else {
                let gx: i64 = 1 + 2 * (ix as i64);
                let gy: i64 = 1 + 2 * (iy as i64);
                let nxl: i64 = nx as i64;
                let nyl: i64 = ny as i64;
                proof {
                    assert(0 <= (gx as int) * (nyl as int) < 0x8000_0000_0000_0000
                        && 0 <= (gy as int) * (nxl as int) < 0x8000_0000_0000_0000) by (nonlinear_arith)
                        requires
                            0 <= gx < 0x1_0000_0000,
                            0 <= nyl < 0x8000_0000,
                            0 <= gy < 0x1_0000_0000,
                            0 <= nxl < 0x8000_0000,
                    ;
                }
                gx * nyl < gy * nxl
            };

            proof {
                assert(step_x == line_steps_x(
                    span(a.x, b.x),
                    span(a.y, b.y),
                    ix as int,
                    iy as int,
                ));
                lemma_spec_line_unfold(*a, *b, ix as int, iy as int);
            }
            let ghost before = points@;

            if step_x {
                x += sx;
                ix += 1;
            } else {
                y += sy;
                iy += 1;
            }

            points.push(Vector { x, y });
            proof {
                assert(points@.drop_last() =~= before);
                assert(points@.last() == line_point(*a, *b, ix as int, iy as int));
                assert(before.drop_last() + (seq![before.last()] + spec_line(
                    *a,
                    *b,
                    ix as int,
                    iy as int,
                )) =~= before + spec_line(*a, *b, ix as int, iy as int));
            }
        }
        proof {
            assert(spec_line(*a, *b, ix as int, iy as int) == seq![
                line_point(*a, *b, ix as int, iy as int),
            ]);
            assert(points@ =~= points@.drop_last().push(points@.last()));
            assert(points@.drop_last() + spec_line(*a, *b, ix as int, iy as int)
                =~= points@);
        }
        points
    }
}

} // verus!
