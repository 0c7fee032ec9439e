use vstd::prelude::*;

verus! {

use crate::vectors::Vector;

/// One tile of the map. Strength zero means walkable; any other value is
/// an unbroken, unwalkable tile. Opaqueness is subtracted from a ray's
/// light budget; zero lets all light through.
#[derive(PartialEq, Eq, Structural, Copy, Clone, Debug)]
pub struct Tile {
    strength: u8,
    opaqueness: u8,
    discovered: bool,
}

impl Tile {
    /// How much force the tile withstands; zero means walkable.
    pub closed spec fn strength_spec(&self) -> u8 {
        self.strength
    }

    /// How much light the tile swallows.
    pub closed spec fn opaqueness_spec(&self) -> u8 {
        self.opaqueness
    }

    /// Whether the player has seen the tile.
    pub closed spec fn discovered_spec(&self) -> bool {
        self.discovered
    }

    pub fn new(strength: u8, opaqueness: u8) -> (r: Self)
        ensures
            r.strength_spec() == strength,
            r.opaqueness_spec() == opaqueness,
            !r.discovered_spec(),
    {
        Tile { strength, opaqueness, discovered: false }
    }

    /// A walkable, fully transparent tile.
    pub fn ground() -> (r: Self)
        ensures
            r.strength_spec() == 0,
            r.opaqueness_spec() == 0,
            !r.discovered_spec(),
    {
        Tile::new(0, 0)
    }

    /// An unwalkable, light-blocking tile.
    pub fn wall() -> (r: Self)
        ensures
            r.strength_spec() == 255,
            r.opaqueness_spec() == 255,
            !r.discovered_spec(),
    {
        Tile::new(255, 255)
    }

    /// An unwalkable tile that lets all light through.
    pub fn window() -> (r: Self)
        ensures
            r.strength_spec() == 255,
            r.opaqueness_spec() == 0,
            !r.discovered_spec(),
    {
        Tile::new(255, 0)
    }

    /// Set strength and opaqueness to the same value.
    pub fn set_both(&mut self, value: u8)
        ensures
            final(self).strength_spec() == value,
            final(self).opaqueness_spec() == value,
            final(self).discovered_spec() == old(self).discovered_spec(),
    {
        self.strength = value;
        self.opaqueness = value;
    }

    /// Whether the tile can be walked on.
    pub fn walkable(&self) -> (r: bool)
        ensures
            r == (self.strength_spec() == 0),
    {
        self.strength == 0
    }

    /// Mark the tile as seen; discovery is never undone.
    pub fn discover(&mut self)
        ensures
            final(self).discovered_spec(),
            final(self).strength_spec() == old(self).strength_spec(),
            final(self).opaqueness_spec() == old(self).opaqueness_spec(),
    {
        self.discovered = true;
    }

    /// Whether the player has seen the tile.
    pub fn discovered(&self) -> (r: bool)
        ensures
            r == self.discovered_spec(),
    {
        self.discovered
    }
}

/// What a ray is asked about: whether sight passes, or whether footsteps
/// would.
pub enum RaycastMode {
    Walkable,
    Visibility,
}

/// Relies on rand's `Rng::gen_range` over `thread_rng`: a drawn index
/// below the bound, and nothing promised about which one.
#[verifier::external_body]
fn random_below(bound: usize) -> (r: usize)
    requires
        bound >= 1,
    ensures
        r < bound,
{
    rand::Rng::gen_range(&mut rand::thread_rng(), 0..bound)
}

/// A rectangular tile grid in row-major order.
#[derive(Clone)]
pub struct TileMap {
    width: usize,
    height: usize,
    data: Vec<Tile>,
}

impl TileMap {
    /// Columns.
    pub closed spec fn width_spec(&self) -> usize {
        self.width
    }

    /// Rows.
    pub closed spec fn height_spec(&self) -> usize {
        self.height
    }

    /// The tile at a coordinate (meaningful within bounds).
    pub closed spec fn spec_tile_at(&self, x: int, y: int) -> Tile {
        self.data@[y * self.width + x]
    }

    /// The map's invariant: one tile per cell, dimensions addressable
    /// with the machine's integers.
    pub closed spec fn wf(&self) -> bool {
        &&& self.data@.len() == self.width * self.height
        &&& self.width <= i32::MAX
        &&& self.height <= i32::MAX
    }

    /// Whether the coordinate lies on the map.
    pub open spec fn spec_in_bounds(&self, position: Vector) -> bool {
        0 <= position.x < self.width_spec() && 0 <= position.y < self.height_spec()
    }

    /// With both coordinates in bounds, the row-major cell index is in
    /// range.
    proof fn lemma_index_in_range(&self, position: Vector)
        requires
            self.wf(),
            self.spec_in_bounds(position),
        ensures
            0 <= position.y * self.width_spec() + position.x < self.data@.len(),
    {
        let x = position.x as int;
        let y = position.y as int;
        let w = self.width as int;
        let h = self.height as int;
        assert(y * w + x < w * h && 0 <= y * w + x) by (nonlinear_arith)
            requires
                0 <= x < w,
                0 <= y < h,
        ;
    }

    /// An all-ground map of the given dimensions.
    pub fn empty(width: usize, height: usize) -> (r: Self)
        requires
            width * height <= usize::MAX,
            width <= i32::MAX,
            height <= i32::MAX,
        ensures
            r.wf(),
            r.width_spec() == width,
            r.height_spec() == height,
            forall|x: int, y: int|
                0 <= x < width && 0 <= y < height ==> (#[trigger] r.spec_tile_at(
                    x,
                    y,
                )).strength_spec() == 0 && r.spec_tile_at(x, y).opaqueness_spec() == 0
                    && !r.spec_tile_at(x, y).discovered_spec(),
    {
        let total = width * height;
        let mut data: Vec<Tile> = Vec::new();
        let mut i: usize = 0;

        while i < total
            invariant
                i <= total,
                data@.len() == i,
                forall|k: int|
                    0 <= k < i ==> (#[trigger] data@[k]).strength_spec() == 0
                        && data@[k].opaqueness_spec() == 0 && !data@[k].discovered_spec(),
            decreases total - i,
        {
            data.push(Tile::ground());
            i += 1;
        }
        let map = TileMap { width, height, data };
        proof {
            assert forall|x: int, y: int|
                0 <= x < width && 0 <= y < height implies (#[trigger] map.spec_tile_at(
                x,
                y,
            )).strength_spec() == 0 && map.spec_tile_at(x, y).opaqueness_spec() == 0
                && !map.spec_tile_at(x, y).discovered_spec() by {
                map.lemma_index_in_range(Vector { x: x as i32, y: y as i32 });
            }
        }
        map
    }

    /// Turn one tile into a full wall; a coordinate off the map changes
    /// nothing.
    fn set_wall(&mut self, x: usize, y: usize)
        requires
            old(self).wf(),
            x <= i32::MAX,
            y <= i32::MAX,
        ensures
            final(self).wf(),
            final(self).width_spec() == old(self).width_spec(),
            final(self).height_spec() == old(self).height_spec(),
            x < old(self).width_spec() && y < old(self).height_spec() ==> final(self).spec_tile_at(x as int, y as int).strength_spec() == 255 && final(self).spec_tile_at(
                x as int,
                y as int,
            ).opaqueness_spec() == 255,
            forall|cx: int, cy: int|
                0 <= cx < old(self).width_spec() && 0 <= cy < old(self).height_spec() && !(cx == x
                    && cy == y) ==> #[trigger] final(self).spec_tile_at(cx, cy) == old(self).spec_tile_at(cx, cy),
    {
        match self.get_mut(&Vector::new(x as i32, y as i32)) {
            Some(tile) => {
                tile.set_both(255);
            },
            None => {},
        }
    }

    /// A bordered map with randomly scattered interior walls: every edge
    /// tile is a wall, the middle tile is kept clear, and every tile is
    /// either untouched ground or a full wall, wherever the random walls
    /// landed.
    #[verifier::rlimit(100)]
    #[verifier::spinoff_prover]
    pub fn new(width: usize, height: usize) -> (r: Self)
        requires
            3 <= width,
            3 <= height,
            width * height <= usize::MAX,
            width <= i32::MAX,
            height <= i32::MAX,
        ensures
            r.wf(),
            r.width_spec() == width,
            r.height_spec() == height,
            forall|x: int, y: int|
                0 <= x < width && 0 <= y < height && (x == 0 || x == width - 1 || y == 0 || y
                    == height - 1) ==> (#[trigger] r.spec_tile_at(x, y)).strength_spec() == 255,
            r.spec_tile_at(width as int / 2, height as int / 2).strength_spec() == 0,
            forall|x: int, y: int|
                0 <= x < width && 0 <= y < height ==> (#[trigger] r.spec_tile_at(
                    x,
                    y,
                )).strength_spec() == 0 || r.spec_tile_at(x, y).strength_spec() == 255,
    {
        let mut map = TileMap::empty(width, height);

        let mut x: usize = 0;

        while x < width
            invariant
                map.wf(),
                map.width_spec() == width,
                map.height_spec() == height,
                3 <= width <= i32::MAX,
                3 <= height <= i32::MAX,
                x <= width,
                forall|cx: int|
                    0 <= cx < x ==> (#[trigger] map.spec_tile_at(cx, 0)).strength_spec() == 255
                        && map.spec_tile_at(cx, height - 1).strength_spec() == 255,
                forall|cx: int, cy: int|
                    0 <= cx < width && 0 <= cy < height && !(cy == 0 && cx < x) && !(cy == height
                        - 1 && cx < x) ==> (#[trigger] map.spec_tile_at(cx, cy)).strength_spec()
                        == 0,
            decreases width - x,
        {
            let ghost m0 = map;
            map.set_wall(x, 0);
            let ghost m1 = map;
            map.set_wall(x, height - 1);
            proof {
                assert(map.spec_tile_at(x as int, 0).strength_spec() == 255) by {
                    assert(m1.spec_tile_at(x as int, 0).strength_spec() == 255);
                    assert(map.spec_tile_at(x as int, 0) == m1.spec_tile_at(x as int, 0));
                }
                assert(map.spec_tile_at(x as int, height - 1).strength_spec() == 255);
                assert forall|cx: int|
                    0 <= cx < x + 1 implies (#[trigger] map.spec_tile_at(cx, 0)).strength_spec()
                    == 255 && map.spec_tile_at(cx, height - 1).strength_spec() == 255 by {
                    if cx < x {
                        assert(m0.spec_tile_at(cx, 0).strength_spec() == 255);
                        assert(m1.spec_tile_at(cx, 0) == m0.spec_tile_at(cx, 0));
                        assert(map.spec_tile_at(cx, 0) == m1.spec_tile_at(cx, 0));
                        assert(m0.spec_tile_at(cx, height - 1).strength_spec() == 255);
                        assert(m1.spec_tile_at(cx, height - 1) == m0.spec_tile_at(
                            cx,
                            height - 1,
                        ));
                        assert(map.spec_tile_at(cx, height - 1) == m1.spec_tile_at(
                            cx,
                            height - 1,
                        ));
                    }
                }
                assert forall|cx: int, cy: int|
                    0 <= cx < width && 0 <= cy < height && !(cy == 0 && cx < x + 1) && !(cy
                        == height - 1 && cx < x + 1) implies (#[trigger] map.spec_tile_at(
                    cx,
                    cy,
                )).strength_spec() == 0 by {
                    assert(m0.spec_tile_at(cx, cy).strength_spec() == 0);
                    assert(m1.spec_tile_at(cx, cy) == m0.spec_tile_at(cx, cy));
                    assert(map.spec_tile_at(cx, cy) == m1.spec_tile_at(cx, cy));
                }
            }
            x += 1;
        }

        proof {
            assert forall|cx: int, cy: int|
                0 <= cx < width && 0 <= cy < height implies (#[trigger] map.spec_tile_at(
                cx,
                cy,
            )).strength_spec() == 0 || map.spec_tile_at(cx, cy).strength_spec() == 255 by {
                if cy == 0 || cy == height - 1 {
                    assert(map.spec_tile_at(cx, 0).strength_spec() == 255 && map.spec_tile_at(
                        cx,
                        height - 1,
                    ).strength_spec() == 255);
                }
            }
        }
        let mut y: usize = 0;

        while y < height
            invariant
                map.wf(),
                map.width_spec() == width,
                map.height_spec() == height,
                3 <= width <= i32::MAX,
                3 <= height <= i32::MAX,
                y <= height,
                forall|cx: int|
                    0 <= cx < width ==> (#[trigger] map.spec_tile_at(cx, 0)).strength_spec()
                        == 255 && map.spec_tile_at(cx, height - 1).strength_spec() == 255,
                forall|cy: int|
                    0 <= cy < y ==> (#[trigger] map.spec_tile_at(0, cy)).strength_spec() == 255
                        && map.spec_tile_at(width - 1, cy).strength_spec() == 255,
                forall|cx: int, cy: int|
                    0 <= cx < width && 0 <= cy < height ==> (#[trigger] map.spec_tile_at(
                        cx,
                        cy,
                    )).strength_spec() == 0 || map.spec_tile_at(cx, cy).strength_spec() == 255,
                forall|cx: int, cy: int|
                    0 < cx < width - 1 && 0 < cy < height - 1 ==> (#[trigger] map.spec_tile_at(
                        cx,
                        cy,
                    )).strength_spec() == 0,
            decreases height - y,
        {
            let ghost m0 = map;
            map.set_wall(0, y);
            let ghost m1 = map;
            map.set_wall(width - 1, y);
            proof {
                assert(map.spec_tile_at(0, y as int).strength_spec() == 255) by {
                    assert(m1.spec_tile_at(0, y as int).strength_spec() == 255);
                    assert(map.spec_tile_at(0, y as int) == m1.spec_tile_at(0, y as int));
                }
                assert(map.spec_tile_at(width - 1, y as int).strength_spec() == 255);
                assert forall|cx: int, cy: int|
                    0 <= cx < width && 0 <= cy < height && !(cx == 0 && cy == y) && !(cx == width
                        - 1 && cy == y) implies #[trigger] map.spec_tile_at(cx, cy)
                    == m0.spec_tile_at(cx, cy) by {
                    assert(m1.spec_tile_at(cx, cy) == m0.spec_tile_at(cx, cy));
                    assert(map.spec_tile_at(cx, cy) == m1.spec_tile_at(cx, cy));
                }
                assert forall|cx: int|
                    0 <= cx < width implies (#[trigger] map.spec_tile_at(cx, 0)).strength_spec()
                    == 255 && map.spec_tile_at(cx, height - 1).strength_spec() == 255 by {
                    assert(m0.spec_tile_at(cx, 0).strength_spec() == 255);
                    if !(cx == 0 && 0 == y) && !(cx == width - 1 && 0 == y) {
                        assert(m1.spec_tile_at(cx, 0) == m0.spec_tile_at(cx, 0));
                        assert(map.spec_tile_at(cx, 0) == m1.spec_tile_at(cx, 0));
                    }
                    if !(cx == 0 && height - 1 == y) && !(cx == width - 1 && height - 1 == y) {
                        assert(m0.spec_tile_at(cx, height - 1).strength_spec() == 255);
                        assert(m1.spec_tile_at(cx, height - 1) == m0.spec_tile_at(
                            cx,
                            height - 1,
                        ));
                        assert(map.spec_tile_at(cx, height - 1) == m1.spec_tile_at(
                            cx,
                            height - 1,
                        ));
                    }
                }
                assert forall|cy: int|
                    0 <= cy < y + 1 implies (#[trigger] map.spec_tile_at(0, cy)).strength_spec()
                    == 255 && map.spec_tile_at(width - 1, cy).strength_spec() == 255 by {
                    if cy < y {
                        assert(m0.spec_tile_at(0, cy).strength_spec() == 255);
                        assert(m0.spec_tile_at(width - 1, cy).strength_spec() == 255);
                        assert(m1.spec_tile_at(0, cy) == m0.spec_tile_at(0, cy));
                        assert(map.spec_tile_at(0, cy) == m1.spec_tile_at(0, cy));
                        assert(m1.spec_tile_at(width - 1, cy) == m0.spec_tile_at(
                            width - 1,
                            cy,
                        ));
                        assert(map.spec_tile_at(width - 1, cy) == m1.spec_tile_at(
                            width - 1,
                            cy,
                        ));
                    } else {
                        assert(map.spec_tile_at(0, y as int).strength_spec() == 255);
                        assert(map.spec_tile_at(width - 1, y as int).strength_spec() == 255);
                    }
                }
                assert forall|cx: int, cy: int|
                    0 <= cx < width && 0 <= cy < height implies (#[trigger] map.spec_tile_at(
                    cx,
                    cy,
                )).strength_spec() == 0 || map.spec_tile_at(cx, cy).strength_spec() == 255 by {
                    if !(cx == 0 && cy == y) && !(cx == width - 1 && cy == y) {
                        assert(m0.spec_tile_at(cx, cy).strength_spec() == 0 || m0.spec_tile_at(
                            cx,
                            cy,
                        ).strength_spec() == 255);
                    }
                }
                assert forall|cx: int, cy: int|
                    0 < cx < width - 1 && 0 < cy < height - 1 implies (
                    #[trigger] map.spec_tile_at(cx, cy)).strength_spec() == 0 by {
                    assert(m0.spec_tile_at(cx, cy).strength_spec() == 0);
                }
            }
            y += 1;
        }

        proof {
            assert forall|cx: int, cy: int|
                0 <= cx < width && 0 <= cy < height && (cx == 0 || cx == width - 1 || cy == 0
                    || cy == height - 1) implies (#[trigger] map.spec_tile_at(
                cx,
                cy,
            )).strength_spec() == 255 by {
                if cy == 0 || cy == height - 1 {
                    assert(map.spec_tile_at(cx, 0).strength_spec() == 255 && map.spec_tile_at(
                        cx,
                        height - 1,
                    ).strength_spec() == 255);
                } else {
                    assert(map.spec_tile_at(0, cy).strength_spec() == 255 && map.spec_tile_at(
                        width - 1,
                        cy,
                    ).strength_spec() == 255);
                }
            }
            assert(0 < width as int / 2 < width - 1);
            assert(0 < height as int / 2 < height - 1);
        }
        let total = width * height;
        let rolls = total / 5;
        let mid_x = width / 2;
        let mid_y = height / 2;
        let mut i: usize = 0;

        while i < rolls
            invariant
                map.wf(),
                map.width_spec() == width,
                map.height_spec() == height,
                3 <= width <= i32::MAX,
                3 <= height <= i32::MAX,
                mid_x == width / 2,
                mid_y == height / 2,
                forall|cx: int, cy: int|
                    0 <= cx < width && 0 <= cy < height && (cx == 0 || cx == width - 1 || cy == 0
                        || cy == height - 1) ==> (#[trigger] map.spec_tile_at(
                        cx,
                        cy,
                    )).strength_spec() == 255,
                map.spec_tile_at(mid_x as int, mid_y as int).strength_spec() == 0,
                forall|cx: int, cy: int|
                    0 <= cx < width && 0 <= cy < height ==> (#[trigger] map.spec_tile_at(
                        cx,
                        cy,
                    )).strength_spec() == 0 || map.spec_tile_at(cx, cy).strength_spec() == 255,
            decreases rolls - i,
        {
            let rx = 1 + random_below(width - 1);
            let ry = 1 + random_below(height - 1);

            if !(rx == mid_x && ry == mid_y) {
                map.set_wall(rx, ry);
                proof {
                    assert(map.spec_tile_at(mid_x as int, mid_y as int).strength_spec() == 0);
                }
            }
            i += 1;
        }

        map
    }

    /// Whether the coordinate lies on the map.
    pub fn in_bounds(&self, position: &Vector) -> (r: bool)
        requires
            self.wf(),
        ensures
            r == self.spec_in_bounds(*position),
    {
        let (x, y) = position.tuple();
        (0 <= x && x < self.width as i32) && (0 <= y && y < self.height as i32)
    }

    /// The tile at a coordinate, or nothing off the map.
    pub fn get(&self, position: &Vector) -> (r: Option<&Tile>)
        requires
            self.wf(),
        ensures
            match r {
                Some(t) => self.spec_in_bounds(*position) && *t == self.spec_tile_at(
                    position.x as int,
                    position.y as int,
                ),
                None => !self.spec_in_bounds(*position),
            },
    {
        if !self.in_bounds(position) {
            return None;
        }
        let total = self.data.len();
        proof {
            self.lemma_index_in_range(*position);
            assert(position.y * self.width + position.x < total);
        }
        let index = (position.y as usize) * self.width + (position.x as usize);
        Some(&self.data[index])
    }

    /// The tile at a coordinate for mutation, or nothing off the map.
    /// Writing through the tile changes that cell alone.
    pub fn get_mut(&mut self, position: &Vector) -> (r: Option<&mut Tile>)
        requires
            old(self).wf(),
        ensures
            match r {
                Some(t) => {
                    &&& old(self).spec_in_bounds(*position)
                    &&& *t == old(self).spec_tile_at(position.x as int, position.y as int)
                    &&& final(self).wf()
                    &&& final(self).width_spec() == old(self).width_spec()
                    &&& final(self).height_spec() == old(self).height_spec()
                    &&& final(self).spec_tile_at(position.x as int, position.y as int)
                        == *final(t)
                    &&& forall|x: int, y: int|
                        0 <= x < old(self).width_spec() && 0 <= y < old(self).height_spec() && (x
                            != position.x || y != position.y)
                            ==> #[trigger] final(self).spec_tile_at(x, y) == old(self).spec_tile_at(x, y)
                },
                None => {
                    &&& !old(self).spec_in_bounds(*position)
                    &&& *final(self) == *old(self)
                },
            },
    {
        if !self.in_bounds(position) {
            return None;
        }
        proof {
            self.lemma_index_in_range(*position);
            let w = self.width as int;
            let h = self.height as int;
            let d = self.data@;
            let px = position.x as int;
            let py = position.y as int;
            assert forall|ft: Tile, x: int, y: int|
                0 <= x < w && 0 <= y < h && (x != px || y != py) implies #[trigger] d.update(
                py * w + px,
                ft,
            )[y * w + x] == d[y * w + x] by {
                assert(y * w + x != py * w + px && 0 <= y * w + x < w * h) by (nonlinear_arith)
                    requires
                        0 <= x < w,
                        0 <= y < h,
                        0 <= px < w,
                        0 <= py < h,
                        x != px || y != py,
                ;
            }
        }
        let total = self.data.len();
        proof {
            assert(position.y * self.width + position.x < total);
        }
        let index = (position.y as usize) * self.width + (position.x as usize);
        Some(&mut self.data[index])
    }

    /// Where a ray walking `path` from index `i` with this much light
    /// left first stops, if anywhere: at the first point off the map, the
    /// first unwalkable tile (walkable mode), or the first tile whose
    /// opaqueness exceeds the light still left (visibility mode), each
    /// passed tile spending its opaqueness from the budget.
    pub open spec fn spec_cast(&self, path: Seq<Vector>, i: int, light: int, mode: RaycastMode) -> Option<int>
        decreases path.len() - i
            when 0 <= i <= path.len()
    {
        if i >= path.len() {
            None
        } else {
            let p = path[i];
            if !self.spec_in_bounds(p) {
                Some(i)
            } else {
                let tile = self.spec_tile_at(p.x as int, p.y as int);
                match mode {
                    RaycastMode::Walkable => if tile.strength_spec() != 0 {
                        Some(i)
                    } else {
                        self.spec_cast(path, i + 1, light, mode)
                    },
                    RaycastMode::Visibility => if tile.opaqueness_spec() > light {
                        Some(i)
                    } else {
                        self.spec_cast(path, i + 1, light - tile.opaqueness_spec(), mode)
                    },
                }
            }
        }
    }

    /// Follow the grid walk from `start` to `end` with a light budget of
    /// 255, and report whether the ray was stopped and where the walk
    /// ended: the first blocking point on a hit, `end` otherwise.
    pub fn raycast(&self, start: &Vector, end: &Vector, mode: RaycastMode) -> (r: (bool, Vector))
        requires
            self.wf(),
            i32::MIN < end.x - start.x <= i32::MAX,
            i32::MIN < end.y - start.y <= i32::MAX,
            (if end.x >= start.x {
                end.x - start.x
            } else {
                start.x - end.x
            }) + (if end.y >= start.y {
                end.y - start.y
            } else {
                start.y - end.y
            }) < usize::MAX,
        ensures
            ({
                let path = crate::vectors::spec_line(*start, *end, 0, 0);
                match self.spec_cast(path, 0, 255, mode) {
                    Some(i) => r == (true, path[i]),
                    None => r == (false, *end),
                }
            }),
            !r.0 ==> r.1 == *end,
    {
        let points = Vector::line(start, end);
        let mut light: u8 = 255;
        let mut i: usize = 0;

        while i < points.len()
            invariant
                self.wf(),
                i <= points@.len(),
                points@ == crate::vectors::spec_line(*start, *end, 0, 0),
                points@.last() == *end,
                self.spec_cast(points@, 0, 255, mode) == self.spec_cast(
                    points@,
                    i as int,
                    light as int,
                    mode,
                ),
            decreases points@.len() - i,
        {
            let point = points[i];
            match self.get(&point) {
                Some(tile) => {
                    match mode {
                        RaycastMode::Visibility => {
                            let opaqueness = tile.opaqueness_exec();
                            if opaqueness > light {
                                proof {
                                    assert(self.spec_cast(
                                        points@,
                                        i as int,
                                        light as int,
                                        mode,
                                    ) == Some(i as int));
                                }
                                return (true, point);
                            }
                            light = light - opaqueness;
                        },
                        RaycastMode::Walkable => {
                            if !tile.walkable() {
                                proof {
                                    assert(self.spec_cast(
                                        points@,
                                        i as int,
                                        light as int,
                                        mode,
                                    ) == Some(i as int));
                                }
                                return (true, point);
                            }
                        },
                    }
                },
                None => {
                    proof {
                        assert(self.spec_cast(points@, i as int, light as int, mode) == Some(
                            i as int,
                        ));
                    }
                    return (true, point);
                },
            }
            i += 1;
        }
        proof {
            assert(self.spec_cast(points@, i as int, light as int, mode) is None);
        }
        (false, *end)
    }
}

impl Tile {
    /// How much light the tile swallows.
    pub fn opaqueness_exec(&self) -> (r: u8)
        ensures
            r == self.opaqueness_spec(),
    {
        self.opaqueness
    }
}

} // verus!
