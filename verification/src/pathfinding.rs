//! Pathfinding: a distance field that floods out from a goal over the walkable
//! cells of a grid, and the single step that follows it downhill.

use crate::component::velocity::Velocity;
use crate::game_object::WorldPoint;
use crate::world::{World, WorldView};
use vstd::prelude::*;

verus! {

/// A rectangular grid of cells, each walkable or not. Row `y` holds the cells
/// `(0, y)` to `(width - 1, y)`.
pub struct Grid {
    pub width: usize,
    pub height: usize,
    pub cells: Vec<Vec<bool>>,
}

/// For every cell of a grid, the number of steps to the goal, where the goal
/// can be reached within the radius of the flood.
pub struct DistanceField {
    pub width: usize,
    pub height: usize,
    pub cells: Vec<Vec<Option<u32>>>,
}

impl Grid {
    /// The grid has `height` rows of `width` cells.
    pub open spec fn wf(&self) -> bool {
        &&& self.width <= i64::MAX
        &&& self.height <= i64::MAX
        &&& self.cells@.len() == self.height
        &&& forall|y: int| 0 <= y < self.height ==> (#[trigger] self.cells@[y])@.len() == self.width
    }

    /// Whether `(x, y)` is a cell of the grid and walkable.
    pub open spec fn walkable(&self, x: int, y: int) -> bool {
        0 <= x < self.width && 0 <= y < self.height && self.cells@[y]@[x]
    }

    /// The walkable cells, as a predicate on all pairs of integers.
    pub open spec fn walk(&self) -> spec_fn(int, int) -> bool {
        |x: int, y: int| self.walkable(x, y)
    }
}

impl DistanceField {
    /// The field has `height` rows of `width` cells.
    pub open spec fn wf(&self) -> bool {
        &&& self.width <= i64::MAX
        &&& self.height <= i64::MAX
        &&& self.cells@.len() == self.height
        &&& forall|y: int| 0 <= y < self.height ==> (#[trigger] self.cells@[y])@.len() == self.width
    }

    /// The distance that the field holds for `(x, y)`; none outside the grid.
    pub open spec fn at(&self, x: int, y: int) -> Option<nat> {
        if 0 <= x < self.width && 0 <= y < self.height {
            match self.cells@[y]@[x] {
                Some(d) => Some(d as nat),
                None => None,
            }
        } else {
            None
        }
    }

    /// The distance that the field holds for `(x, y)`; none outside the grid.
    pub fn get(&self, x: i64, y: i64) -> (d: Option<u32>)
        requires
            self.wf(),
        ensures
            self.at(x as int, y as int) == match d {
                Some(n) => Some(n as nat),
                None => None::<nat>,
            },
    {
        if x < 0 || y < 0 {
            return None;
        }
        if x as u64 >= self.width as u64 || y as u64 >= self.height as u64 {
            return None;
        }
        self.cells[y as usize][x as usize]
    }
}

/// Whether `(x, y)` can be reached from the goal `(gx, gy)` in at most `k`
/// steps between side-by-side walkable cells. The goal counts only if it is
/// walkable itself.
pub open spec fn within(
    walk: spec_fn(int, int) -> bool,
    gx: int,
    gy: int,
    x: int,
    y: int,
    k: nat,
) -> bool
    decreases k,
{
    if k == 0 {
        x == gx && y == gy && walk(gx, gy)
    } else {
        within(walk, gx, gy, x, y, (k - 1) as nat) || (walk(x, y) && (within(
            walk,
            gx,
            gy,
            x - 1,
            y,
            (k - 1) as nat,
        ) || within(walk, gx, gy, x + 1, y, (k - 1) as nat) || within(
            walk,
            gx,
            gy,
            x,
            y - 1,
            (k - 1) as nat,
        ) || within(walk, gx, gy, x, y + 1, (k - 1) as nat)))
    }
}

/// The least number of steps, up to `k`, in which `(x, y)` can be reached from
/// the goal, for a cell that can be reached in `k`.
pub open spec fn least(
    walk: spec_fn(int, int) -> bool,
    gx: int,
    gy: int,
    x: int,
    y: int,
    k: nat,
) -> nat
    decreases k,
{
    if k == 0 {
        0
    } else if within(walk, gx, gy, x, y, (k - 1) as nat) {
        least(walk, gx, gy, x, y, (k - 1) as nat)
    } else {
        k
    }
}

/// The length of a shortest walk from the goal to `(x, y)`, if there is one of
/// at most `radius` steps.
pub open spec fn distance(
    walk: spec_fn(int, int) -> bool,
    gx: int,
    gy: int,
    x: int,
    y: int,
    radius: nat,
) -> Option<nat> {
    if within(walk, gx, gy, x, y, radius) {
        Some(least(walk, gx, gy, x, y, radius))
    } else {
        None
    }
}

/// Whether the neighbour with distance `there` is closer to the goal than the
/// cell with distance `here`.
pub open spec fn closer(there: Option<nat>, here: nat) -> bool {
    there matches Some(d) && d < here
}

/// The step downhill: from a cell with distance `here`, one step to the first
/// of the neighbours west, east, north and south that is closer to the goal.
/// No step where the cell has no distance or no neighbour is closer.
pub open spec fn step_by(
    here: Option<nat>,
    west: Option<nat>,
    east: Option<nat>,
    north: Option<nat>,
    south: Option<nat>,
) -> Velocity {
    match here {
        None => Velocity { dx: 0, dy: 0 },
        Some(d) => if closer(west, d) {
            Velocity { dx: -1i64, dy: 0 }
        } else if closer(east, d) {
            Velocity { dx: 1, dy: 0 }
        } else if closer(north, d) {
            Velocity { dx: 0, dy: -1i64 }
        } else if closer(south, d) {
            Velocity { dx: 0, dy: 1 }
        } else {
            Velocity { dx: 0, dy: 0 }
        },
    }
}

/// The step that an entity on `pos` takes towards `goal`: downhill on the
/// distances within `radius`.
pub open spec fn pursuit_step(
    walk: spec_fn(int, int) -> bool,
    goal: WorldPoint,
    pos: WorldPoint,
    radius: nat,
) -> Velocity {
    step_by(
        distance(walk, goal.x as int, goal.y as int, pos.x as int, pos.y as int, radius),
        distance(walk, goal.x as int, goal.y as int, pos.x - 1, pos.y as int, radius),
        distance(walk, goal.x as int, goal.y as int, pos.x + 1, pos.y as int, radius),
        distance(walk, goal.x as int, goal.y as int, pos.x as int, pos.y - 1, radius),
        distance(walk, goal.x as int, goal.y as int, pos.x as int, pos.y + 1, radius),
    )
}

/// What can be reached is walkable.
pub proof fn lemma_within_walkable(
    walk: spec_fn(int, int) -> bool,
    gx: int,
    gy: int,
    x: int,
    y: int,
    k: nat,
)
    requires
        within(walk, gx, gy, x, y, k),
    ensures
        walk(x, y),
    decreases k,
{
    if k > 0 && within(walk, gx, gy, x, y, (k - 1) as nat) {
        lemma_within_walkable(walk, gx, gy, x, y, (k - 1) as nat);
    }
}

/// What can be reached in `j` steps can be reached in any greater number.
pub proof fn lemma_within_mono(
    walk: spec_fn(int, int) -> bool,
    gx: int,
    gy: int,
    x: int,
    y: int,
    j: nat,
    k: nat,
)
    requires
        j <= k,
        within(walk, gx, gy, x, y, j),
    ensures
        within(walk, gx, gy, x, y, k),
    decreases k,
{
    if j < k {
        lemma_within_mono(walk, gx, gy, x, y, j, (k - 1) as nat);
    }
}

/// `least` is the least: the cell can be reached in that many steps and in no
/// fewer.
pub proof fn lemma_least(
    walk: spec_fn(int, int) -> bool,
    gx: int,
    gy: int,
    x: int,
    y: int,
    k: nat,
)
    requires
        within(walk, gx, gy, x, y, k),
    ensures
        least(walk, gx, gy, x, y, k) <= k,
        within(walk, gx, gy, x, y, least(walk, gx, gy, x, y, k)),
        forall|j: nat| j < least(walk, gx, gy, x, y, k) ==> !within(walk, gx, gy, x, y, j),
    decreases k,
{
    if k > 0 {
        if within(walk, gx, gy, x, y, (k - 1) as nat) {
            lemma_least(walk, gx, gy, x, y, (k - 1) as nat);
        } else {
            assert forall|j: nat| j < k implies !within(walk, gx, gy, x, y, j) by {
                if within(walk, gx, gy, x, y, j) {
                    lemma_within_mono(walk, gx, gy, x, y, j, (k - 1) as nat);
                }
            }
        }
    }
}

/// A neighbour of a walkable cell that cannot be reached in `r` steps is, if it
/// can be reached in `r` steps itself, exactly `r` steps from the goal.
proof fn lemma_frontier(
    walk: spec_fn(int, int) -> bool,
    gx: int,
    gy: int,
    x: int,
    y: int,
    nx: int,
    ny: int,
    r: nat,
)
    requires
        walk(x, y),
        !within(walk, gx, gy, x, y, r),
        (nx == x - 1 && ny == y) || (nx == x + 1 && ny == y) || (nx == x && ny == y - 1) || (nx
            == x && ny == y + 1),
    ensures
        within(walk, gx, gy, nx, ny, r) <==> distance(walk, gx, gy, nx, ny, r) == Some(r),
{
    if within(walk, gx, gy, nx, ny, r) {
        lemma_least(walk, gx, gy, nx, ny, r);
        let d = least(walk, gx, gy, nx, ny, r);
        if d < r {
            assert(within(walk, gx, gy, x, y, d + 1));
            lemma_within_mono(walk, gx, gy, x, y, d + 1, r);
        }
    }
}

/// How the distances within `r + 1` steps follow from those within `r`: a
/// distance that is there stays; a walkable cell without one gets `r + 1` if a
/// neighbour has `r`.
pub proof fn lemma_distance_next(
    walk: spec_fn(int, int) -> bool,
    gx: int,
    gy: int,
    x: int,
    y: int,
    r: nat,
)
    ensures
        distance(walk, gx, gy, x, y, r + 1) == (match distance(walk, gx, gy, x, y, r) {
            Some(d) => Some(d),
            None => if walk(x, y) && (distance(walk, gx, gy, x - 1, y, r) == Some(r) || distance(
                walk,
                gx,
                gy,
                x + 1,
                y,
                r,
            ) == Some(r) || distance(walk, gx, gy, x, y - 1, r) == Some(r) || distance(
                walk,
                gx,
                gy,
                x,
                y + 1,
                r,
            ) == Some(r)) {
                Some(r + 1)
            } else {
                None
            },
        }),
{
    if !within(walk, gx, gy, x, y, r) && walk(x, y) {
        lemma_frontier(walk, gx, gy, x, y, x - 1, y, r);
        lemma_frontier(walk, gx, gy, x, y, x + 1, y, r);
        lemma_frontier(walk, gx, gy, x, y, x, y - 1, r);
        lemma_frontier(walk, gx, gy, x, y, x, y + 1, r);
    }
}

/// Whether the field holds exactly the distance `r` for `(x, y)`.
fn holds(field: &DistanceField, x: i64, y: i64, r: u32) -> (b: bool)
    requires
        field.wf(),
    ensures
        b == (field.at(x as int, y as int) == Some(r as nat)),
{
    match field.get(x, y) {
        Some(d) => d == r,
        None => false,
    }
}

/// The distances within zero steps: the goal has 0 if it is walkable, and no
/// other cell has any.
fn seed(grid: &Grid, goal: WorldPoint) -> (field: DistanceField)
    requires
        grid.wf(),
    ensures
        field.wf(),
        field.width == grid.width,
        field.height == grid.height,
        forall|x: int, y: int| #[trigger]
            field.at(x, y) == distance(grid.walk(), goal.x as int, goal.y as int, x, y, 0),
{
    let mut rows: Vec<Vec<Option<u32>>> = Vec::new();
    let mut y: usize = 0;
    while y < grid.height
        invariant
            grid.wf(),
            y <= grid.height,
            rows@.len() == y,
            forall|b: int| 0 <= b < y ==> (#[trigger] rows@[b])@.len() == grid.width,
            forall|a: int, b: int|
                0 <= b < y && 0 <= a < grid.width ==> #[trigger] rows@[b]@[a] == (if a == goal.x
                    && b == goal.y && grid.walkable(a, b) {
                    Some(0u32)
                } else {
                    None
                }),
        decreases grid.height - y,
    {
        let mut row: Vec<Option<u32>> = Vec::new();
        let mut x: usize = 0;
        while x < grid.width
            invariant
                grid.wf(),
                y < grid.height,
                x <= grid.width,
                row@.len() == x,
                forall|a: int|
                    0 <= a < x ==> #[trigger] row@[a] == (if a == goal.x && y == goal.y
                        && grid.walkable(a, y as int) {
                        Some(0u32)
                    } else {
                        None
                    }),
            decreases grid.width - x,
        {
            let here = goal.x >= 0 && goal.y >= 0 && goal.x as u64 == x as u64 && goal.y as u64
                == y as u64 && grid.cells[y][x];
            row.push(
                if here {
                    Some(0)
                } else {
                    None
                },
            );
            x = x + 1;
        }
        rows.push(row);
        y = y + 1;
    }
    let field = DistanceField { width: grid.width, height: grid.height, cells: rows };
    proof {
        assert forall|x: int, y: int| #[trigger]
            field.at(x, y) == distance(grid.walk(), goal.x as int, goal.y as int, x, y, 0) by {
            if 0 <= x < field.width && 0 <= y < field.height {
                assert(field.cells@[y]@[x] == rows@[y]@[x]);
            }
        }
    }
    field
}

/// One round of the flood: from the distances within `r` steps to those within
/// `r + 1`.
fn relax(grid: &Grid, field: &DistanceField, goal: WorldPoint, r: u32) -> (next: DistanceField)
    requires
        grid.wf(),
        field.wf(),
        field.width == grid.width,
        field.height == grid.height,
        r < u32::MAX,
        forall|x: int, y: int| #[trigger]
            field.at(x, y) == distance(grid.walk(), goal.x as int, goal.y as int, x, y, r as nat),
    ensures
        next.wf(),
        next.width == grid.width,
        next.height == grid.height,
        forall|x: int, y: int| #[trigger]
            next.at(x, y) == distance(
                grid.walk(),
                goal.x as int,
                goal.y as int,
                x,
                y,
                (r + 1) as nat,
            ),
{
    let ghost walk = grid.walk();
    let ghost gx = goal.x as int;
    let ghost gy = goal.y as int;
    let mut rows: Vec<Vec<Option<u32>>> = Vec::new();
    let mut y: usize = 0;
    while y < grid.height
        invariant
            grid.wf(),
            field.wf(),
            field.width == grid.width,
            field.height == grid.height,
            r < u32::MAX,
            walk == grid.walk(),
            gx == goal.x,
            gy == goal.y,
            forall|a: int, b: int| #[trigger] field.at(a, b) == distance(walk, gx, gy, a, b, r as nat),
            y <= grid.height,
            rows@.len() == y,
            forall|b: int| 0 <= b < y ==> (#[trigger] rows@[b])@.len() == grid.width,
            forall|a: int, b: int|
                0 <= b < y && 0 <= a < grid.width ==> (match #[trigger] rows@[b]@[a] {
                    Some(d) => Some(d as nat),
                    None => None,
                }) == distance(walk, gx, gy, a, b, (r + 1) as nat),
        decreases grid.height - y,
    {
        let mut row: Vec<Option<u32>> = Vec::new();
        let mut x: usize = 0;
        while x < grid.width
            invariant
                grid.wf(),
                field.wf(),
                field.width == grid.width,
                field.height == grid.height,
                r < u32::MAX,
                walk == grid.walk(),
                gx == goal.x,
                gy == goal.y,
                forall|a: int, b: int| #[trigger]
                    field.at(a, b) == distance(walk, gx, gy, a, b, r as nat),
                y < grid.height,
                x <= grid.width,
                row@.len() == x,
                forall|a: int|
                    0 <= a < x ==> (match #[trigger] row@[a] {
                        Some(d) => Some(d as nat),
                        None => None,
                    }) == distance(walk, gx, gy, a, y as int, (r + 1) as nat),
            decreases grid.width - x,
        {
            let xi = x as i64;
            let yi = y as i64;
            proof {
                lemma_distance_next(walk, gx, gy, x as int, y as int, r as nat);
                assert(field.at(x as int, y as int) == distance(walk, gx, gy, x as int, y as int, r as nat));
                assert(field.at(x - 1, y as int) == distance(walk, gx, gy, x - 1, y as int, r as nat));
                assert(field.at(x + 1, y as int) == distance(walk, gx, gy, x + 1, y as int, r as nat));
                assert(field.at(x as int, y - 1) == distance(walk, gx, gy, x as int, y - 1, r as nat));
                assert(field.at(x as int, y + 1) == distance(walk, gx, gy, x as int, y + 1, r as nat));
                assert(walk(x as int, y as int) == grid.walkable(x as int, y as int));
            }
            let label = match field.cells[y][x] {
                Some(d) => Some(d),
                None => {
                    if grid.cells[y][x] && (holds(field, xi - 1, yi, r) || holds(
                        field,
                        xi + 1,
                        yi,
                        r,
                    ) || holds(field, xi, yi - 1, r) || holds(field, xi, yi + 1, r)) {
                        Some(r + 1)
                    } else {
                        None
                    }
                },
            };
            row.push(label);
            x = x + 1;
        }
        rows.push(row);
        y = y + 1;
    }
    let next = DistanceField { width: grid.width, height: grid.height, cells: rows };
    proof {
        assert forall|x: int, y: int| #[trigger]
            next.at(x, y) == distance(walk, gx, gy, x, y, (r + 1) as nat) by {
            if 0 <= x < next.width && 0 <= y < next.height {
                assert(next.cells@[y]@[x] == rows@[y]@[x]);
            } else {
                if within(walk, gx, gy, x, y, (r + 1) as nat) {
                    lemma_within_walkable(walk, gx, gy, x, y, (r + 1) as nat);
                }
            }
        }
    }
    next
}

/// The distance field of `grid` around `goal`: for every cell, the length of a
/// shortest walk from the goal over walkable cells, where one of at most
/// `radius` steps exists. A goal that is not a walkable cell of the grid gives
/// a field without any distance.
pub fn flood(grid: &Grid, goal: WorldPoint, radius: u32) -> (field: DistanceField)
    requires
        grid.wf(),
    ensures
        field.wf(),
        field.width == grid.width,
        field.height == grid.height,
        forall|x: int, y: int| #[trigger]
            field.at(x, y) == distance(
                grid.walk(),
                goal.x as int,
                goal.y as int,
                x,
                y,
                radius as nat,
            ),
{
    let mut field = seed(grid, goal);
    let mut r: u32 = 0;
    while r < radius
        invariant
            grid.wf(),
            field.wf(),
            field.width == grid.width,
            field.height == grid.height,
            r <= radius,
            forall|x: int, y: int| #[trigger]
                field.at(x, y) == distance(
                    grid.walk(),
                    goal.x as int,
                    goal.y as int,
                    x,
                    y,
                    r as nat,
                ),
        decreases radius - r,
    {
        field = relax(grid, &field, goal, r);
        r = r + 1;
    }
    field
}

/// The step downhill from `pos` on `field`: see `step_by`.
pub fn descend(field: &DistanceField, pos: WorldPoint) -> (v: Velocity)
    requires
        field.wf(),
    ensures
        v == step_by(
            field.at(pos.x as int, pos.y as int),
            field.at(pos.x - 1, pos.y as int),
            field.at(pos.x + 1, pos.y as int),
            field.at(pos.x as int, pos.y - 1),
            field.at(pos.x as int, pos.y + 1),
        ),
{
    match field.get(pos.x, pos.y) {
        None => Velocity { dx: 0, dy: 0 },
        Some(d) => {
            if lower(field.get(pos.x - 1, pos.y), d) {
                Velocity { dx: -1, dy: 0 }
            } else if lower(field.get(pos.x + 1, pos.y), d) {
                Velocity { dx: 1, dy: 0 }
            } else if lower(field.get(pos.x, pos.y - 1), d) {
                Velocity { dx: 0, dy: -1 }
            } else if lower(field.get(pos.x, pos.y + 1), d) {
                Velocity { dx: 0, dy: 1 }
            } else {
                Velocity { dx: 0, dy: 0 }
            }
        },
    }
}

/// Whether `there` is a distance below `here`.
fn lower(there: Option<u32>, here: u32) -> (b: bool)
    ensures
        b == (there matches Some(d) && d < here),
{
    match there {
        Some(d) => d < here,
        None => false,
    }
}

/// The walkable cells of a world, seen through a window of `width` by `height`
/// tiles with `(0, 0)` in its corner: the passable tiles inside the window.
pub open spec fn ground_plan(m: WorldView, width: int, height: int) -> spec_fn(int, int) -> bool {
    |x: int, y: int|
        0 <= x < width && 0 <= y < height && m.passable(WorldPoint { x: x as i64, y: y as i64 })
}

/// The walkability grid of the world: a cell is walkable where its tile is
/// passable.
pub fn walkability_grid(world: &World, width: usize, height: usize) -> (grid: Grid)
    requires
        world.wf(),
        width <= i64::MAX,
        height <= i64::MAX,
    ensures
        grid.wf(),
        grid.width == width,
        grid.height == height,
        grid.walk() == ground_plan(world@, width as int, height as int),
{
    let mut rows: Vec<Vec<bool>> = Vec::new();
    let mut y: usize = 0;
    while y < height
        invariant
            world.wf(),
            width <= i64::MAX,
            height <= i64::MAX,
            y <= height,
            rows@.len() == y,
            forall|b: int| 0 <= b < y ==> (#[trigger] rows@[b])@.len() == width,
            forall|a: int, b: int|
                0 <= b < y && 0 <= a < width ==> #[trigger] rows@[b]@[a] == world@.passable(
                    WorldPoint { x: a as i64, y: b as i64 },
                ),
        decreases height - y,
    {
        let mut row: Vec<bool> = Vec::new();
        let mut x: usize = 0;
        while x < width
            invariant
                world.wf(),
                width <= i64::MAX,
                height <= i64::MAX,
                y < height,
                x <= width,
                row@.len() == x,
                forall|a: int|
                    0 <= a < x ==> #[trigger] row@[a] == world@.passable(
                        WorldPoint { x: a as i64, y: y as i64 },
                    ),
            decreases width - x,
        {
            let p = WorldPoint { x: x as i64, y: y as i64 };
            let open = world.occupied_at(p, true, false) && !world.occupied_at(p, true, true);
            row.push(open);
            x = x + 1;
        }
        rows.push(row);
        y = y + 1;
    }
    let grid = Grid { width, height, cells: rows };
    proof {
        assert forall|x: int, y: int| #[trigger]
            grid.walkable(x, y) == ground_plan(world@, width as int, height as int)(x, y) by {
            if 0 <= x < width && 0 <= y < height {
                assert(grid.cells@[y]@[x] == rows@[y]@[x]);
            }
        }
        assert(grid.walk() =~= ground_plan(world@, width as int, height as int));
    }
    grid
}

/// Whether `(x, y)` is a cell of the `w` by `h` rectangle.
pub open spec fn in_room(w: int, h: int, x: int, y: int) -> bool {
    0 <= x < w && 0 <= y < h
}

/// A room with no obstacle: every cell of the `w` by `h` rectangle is walkable.
pub open spec fn open_room(w: int, h: int) -> spec_fn(int, int) -> bool {
    |x: int, y: int| in_room(w, h, x, y)
}

/// The Manhattan distance between `(ax, ay)` and `(bx, by)`.
pub open spec fn manhattan(ax: int, ay: int, bx: int, by: int) -> int {
    (if ax >= bx {
        ax - bx
    } else {
        bx - ax
    }) + (if ay >= by {
        ay - by
    } else {
        by - ay
    })
}

/// In a room with no obstacle, a cell can be reached within `k` steps exactly
/// when its Manhattan distance to the goal is at most `k`.
pub proof fn lemma_open_within(w: int, h: int, gx: int, gy: int, x: int, y: int, k: nat)
    requires
        0 <= gx < w,
        0 <= gy < h,
    ensures
        within(open_room(w, h), gx, gy, x, y, k) == (0 <= x < w && 0 <= y < h && manhattan(
            x,
            y,
            gx,
            gy,
        ) <= k),
    decreases k,
{
    if k > 0 {
        let j = (k - 1) as nat;
        lemma_open_within(w, h, gx, gy, x, y, j);
        lemma_open_within(w, h, gx, gy, x - 1, y, j);
        lemma_open_within(w, h, gx, gy, x + 1, y, j);
        lemma_open_within(w, h, gx, gy, x, y - 1, j);
        lemma_open_within(w, h, gx, gy, x, y + 1, j);
    }
}

/// In a room with no obstacle, the distance of a cell to the goal is its
/// Manhattan distance, where that is within the radius.
pub proof fn lemma_open_distance(w: int, h: int, gx: int, gy: int, x: int, y: int, radius: nat)
    requires
        0 <= gx < w,
        0 <= gy < h,
    ensures
        distance(open_room(w, h), gx, gy, x, y, radius) == (if 0 <= x < w && 0 <= y < h
            && manhattan(x, y, gx, gy) <= radius {
            Some(manhattan(x, y, gx, gy) as nat)
        } else {
            None
        }),
{
    let walk = open_room(w, h);
    lemma_open_within(w, h, gx, gy, x, y, radius);
    if within(walk, gx, gy, x, y, radius) {
        lemma_least(walk, gx, gy, x, y, radius);
        let l = least(walk, gx, gy, x, y, radius);
        let m = manhattan(x, y, gx, gy) as nat;
        lemma_open_within(w, h, gx, gy, x, y, l);
        lemma_open_within(w, h, gx, gy, x, y, m);
    }
}

/// In a room with no obstacle, the step of a pursuer that is within the radius
/// of the goal and not on it brings it one step nearer: its Manhattan distance
/// to the goal falls by one, step after step, until it stands next to the goal
/// and its last step reaches it.
pub proof fn lemma_open_room_pursuit(w: int, h: int, goal: WorldPoint, pos: WorldPoint, radius: nat)
    requires
        0 <= goal.x < w,
        0 <= goal.y < h,
        0 <= pos.x < w,
        0 <= pos.y < h,
        0 < manhattan(pos.x as int, pos.y as int, goal.x as int, goal.y as int) <= radius,
    ensures
        ({
            let v = pursuit_step(open_room(w, h), goal, pos, radius);
            manhattan(pos.x + v.dx, pos.y + v.dy, goal.x as int, goal.y as int) == manhattan(
                pos.x as int,
                pos.y as int,
                goal.x as int,
                goal.y as int,
            ) - 1
        }),
{
    let gx = goal.x as int;
    let gy = goal.y as int;
    lemma_open_distance(w, h, gx, gy, pos.x as int, pos.y as int, radius);
    lemma_open_distance(w, h, gx, gy, pos.x - 1, pos.y as int, radius);
    lemma_open_distance(w, h, gx, gy, pos.x + 1, pos.y as int, radius);
    lemma_open_distance(w, h, gx, gy, pos.x as int, pos.y - 1, radius);
    lemma_open_distance(w, h, gx, gy, pos.x as int, pos.y + 1, radius);
}

} // verus!
