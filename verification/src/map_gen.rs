//! Dungeon layouts: the tiles of a level and the generators that lay them out.

use crate::rng::{gen_coin, gen_range_inclusive, random_index, shuffle, GameRng};
use vstd::prelude::*;

verus! {

/// The kind of a map tile.
#[derive(Clone, Copy, Debug, PartialEq, Eq, Structural)]
pub enum Tile {
    Unused,
    Floor,
    Corridor,
    Wall,
    ClosedDoor,
    OpenDoor,
    UpStairs,
    DownStairs,
    Unknown(char),
}

impl Tile {
    /// The glyph that stands for the tile.
    pub open spec fn glyph(self) -> char {
        match self {
            Tile::Unused => ' ',
            Tile::Floor => '.',
            Tile::Corridor => ',',
            Tile::Wall => '#',
            Tile::ClosedDoor => '+',
            Tile::OpenDoor => '-',
            Tile::UpStairs => '<',
            Tile::DownStairs => '>',
            Tile::Unknown(c) => c,
        }
    }

    /// The tile that the glyph `c` stands for: one of the eight known kinds,
    /// or `Unknown` with the glyph.
    pub open spec fn of_glyph(c: char) -> Tile {
        if c == ' ' {
            Tile::Unused
        } else if c == '.' {
            Tile::Floor
        } else if c == ',' {
            Tile::Corridor
        } else if c == '#' {
            Tile::Wall
        } else if c == '+' {
            Tile::ClosedDoor
        } else if c == '-' {
            Tile::OpenDoor
        } else if c == '<' {
            Tile::UpStairs
        } else if c == '>' {
            Tile::DownStairs
        } else {
            Tile::Unknown(c)
        }
    }

    /// Whether the tile can be walked on: floor, corridor, doors and stairs.
    pub open spec fn walkable(self) -> bool {
        match self {
            Tile::Floor => true,
            Tile::Corridor => true,
            Tile::ClosedDoor => true,
            Tile::OpenDoor => true,
            Tile::UpStairs => true,
            Tile::DownStairs => true,
            _ => false,
        }
    }

    /// The glyph of the tile, as it is written to a store column.
    pub fn to_sql(&self) -> (c: char)
        ensures
            c == self.glyph(),
    {
        match self {
            Tile::Unused => ' ',
            Tile::Floor => '.',
            Tile::Corridor => ',',
            Tile::Wall => '#',
            Tile::ClosedDoor => '+',
            Tile::OpenDoor => '-',
            Tile::UpStairs => '<',
            Tile::DownStairs => '>',
            Tile::Unknown(c) => *c,
        }
    }

    /// The tile that the glyph `c` stands for.
    pub fn from_glyph(c: char) -> (t: Tile)
        ensures
            t == Tile::of_glyph(c),
    {
        if c == ' ' {
            Tile::Unused
        } else if c == '.' {
            Tile::Floor
        } else if c == ',' {
            Tile::Corridor
        } else if c == '#' {
            Tile::Wall
        } else if c == '+' {
            Tile::ClosedDoor
        } else if c == '-' {
            Tile::OpenDoor
        } else if c == '<' {
            Tile::UpStairs
        } else if c == '>' {
            Tile::DownStairs
        } else {
            Tile::Unknown(c)
        }
    }

    /// The tile that a store column holding the text `value` stands for: the
    /// tile of its glyph where the text is one glyph long, and `Unknown` with
    /// its first glyph where it is longer.
    pub fn column_result(value: &str) -> (t: Tile)
        requires
            value@.len() > 0,
        ensures
            t == (if value@.len() == 1 {
                Tile::of_glyph(value@[0])
            } else {
                Tile::Unknown(value@[0])
            }),
    {
        let c = value.get_char(0);
        if value.unicode_len() == 1 {
            Tile::from_glyph(c)
        } else {
            Tile::Unknown(c)
        }
    }
}

/// A known tile comes back from its own glyph.
pub proof fn lemma_glyph_round_trip(t: Tile)
    requires
        !(t is Unknown),
    ensures
        Tile::of_glyph(t.glyph()) == t,
{
}

/// A level: `height` rows of `width` tiles, row after row in one list. The
/// list may be longer than the level; what lies behind the last row belongs to
/// no tile position.
pub struct Dungeon {
    width: i64,
    height: i64,
    tiles: Vec<Tile>,
}

/// A tile position lies inside a `w` by `h` level, so its place in the list is
/// inside the first `w * h` entries.
pub proof fn lemma_index_bound(w: int, h: int, x: int, y: int)
    requires
        0 <= x < w,
        0 <= y < h,
    ensures
        0 <= x + y * w < w * h,
        0 <= y * w <= x + y * w,
{
    assert(y * w <= (h - 1) * w) by (nonlinear_arith)
        requires
            0 <= y <= h - 1,
            0 < w,
    ;
    assert((h - 1) * w == h * w - w) by (nonlinear_arith);
    assert(0 <= y * w) by (nonlinear_arith)
        requires
            0 <= y,
            0 < w,
    ;
    assert(w * h == h * w) by (nonlinear_arith);
}

/// Two tile positions of a level with the same place in the list are the same
/// position.
pub proof fn lemma_index_injective(w: int, x: int, y: int, a: int, b: int)
    requires
        0 <= x < w,
        0 <= a < w,
        x + y * w == a + b * w,
    ensures
        x == a,
        y == b,
{
    if y < b {
        assert(b * w >= (y + 1) * w) by (nonlinear_arith)
            requires
                y + 1 <= b,
                0 < w,
        ;
        assert((y + 1) * w == y * w + w) by (nonlinear_arith);
    } else if b < y {
        assert(y * w >= (b + 1) * w) by (nonlinear_arith)
            requires
                b + 1 <= y,
                0 < w,
        ;
        assert((b + 1) * w == b * w + w) by (nonlinear_arith);
    }
}

impl Dungeon {
    /// The number of tiles in a row.
    pub closed spec fn width(&self) -> int {
        self.width as int
    }

    /// The number of rows.
    pub closed spec fn height(&self) -> int {
        self.height as int
    }

    /// The list of tiles, row after row.
    pub closed spec fn tiles(&self) -> Seq<Tile> {
        self.tiles@
    }

    /// The level has at least one column, and the list holds all its tiles.
    pub open spec fn wf(&self) -> bool {
        &&& 1 <= self.width()
        &&& 0 <= self.height()
        &&& self.width() * self.height() <= self.tiles().len() <= i64::MAX
        &&& self.tiles().len() <= usize::MAX
    }

    /// Whether `(x, y)` is a tile position of the level.
    pub open spec fn inside(&self, x: int, y: int) -> bool {
        0 <= x < self.width() && 0 <= y < self.height()
    }

    /// The tile on `(x, y)`, for a position of the level.
    pub open spec fn tile_at(&self, x: int, y: int) -> Tile {
        self.tiles()[x + y * self.width()]
    }

    /// Whether the tile on `(x, y)` is set in: it lies off the border of the
    /// level, and none of the eight tiles around it is unused.
    pub open spec fn enclosed_at(&self, x: int, y: int) -> bool {
        &&& 1 <= x <= self.width() - 2
        &&& 1 <= y <= self.height() - 2
        &&& self.tile_at(x - 1, y - 1) != Tile::Unused
        &&& self.tile_at(x, y - 1) != Tile::Unused
        &&& self.tile_at(x + 1, y - 1) != Tile::Unused
        &&& self.tile_at(x - 1, y) != Tile::Unused
        &&& self.tile_at(x + 1, y) != Tile::Unused
        &&& self.tile_at(x - 1, y + 1) != Tile::Unused
        &&& self.tile_at(x, y + 1) != Tile::Unused
        &&& self.tile_at(x + 1, y + 1) != Tile::Unused
    }

    /// Whether every tile that can be walked on is set in, but for the tile
    /// at place `but` of the list, if there is one: nothing that can be
    /// walked on touches the void or the border of the level.
    pub open spec fn enclosed(&self, but: int) -> bool {
        forall|x: int, y: int|
            self.inside(x, y) && x + y * self.width() != but && (#[trigger] self.tile_at(
                x,
                y,
            )).walkable() ==> self.enclosed_at(x, y)
    }

    /// A level of `width` by `height` tiles over a list of `len` unused tiles.
    pub fn new(width: i64, height: i64, len: usize) -> (d: Dungeon)
        requires
            1 <= width,
            0 <= height,
            width * height <= len <= i64::MAX,
        ensures
            d.wf(),
            d.width() == width,
            d.height() == height,
            d.tiles() == Seq::new(len as nat, |i: int| Tile::Unused),
    {
        let mut tiles: Vec<Tile> = Vec::new();
        let mut i: usize = 0;
        while i < len
            invariant
                i <= len,
                tiles@.len() == i,
                forall|j: int| 0 <= j < i ==> tiles@[j] == Tile::Unused,
            decreases len - i,
        {
            tiles.push(Tile::Unused);
            i = i + 1;
        }
        assert(tiles@ =~= Seq::new(len as nat, |i: int| Tile::Unused));
        Dungeon { width, height, tiles }
    }

    /// The number of tiles in a row.
    pub fn columns(&self) -> (w: i64)
        ensures
            w == self.width(),
    {
        self.width
    }

    /// The number of rows.
    pub fn rows(&self) -> (h: i64)
        ensures
            h == self.height(),
    {
        self.height
    }

    /// Every entry of the list with the column and the row that its place
    /// stands for, in list order: entry `i` stands for column `i % width` of
    /// row `i / width`.
    pub fn iter(&self) -> (all: Vec<(Tile, i64, i64)>)
        requires
            self.wf(),
        ensures
            all@.len() == self.tiles().len(),
            forall|i: int|
                0 <= i < all@.len() ==> #[trigger] all@[i] == (
                    self.tiles()[i],
                    (i % self.width()) as i64,
                    (i / self.width()) as i64,
                ),
    {
        let mut all: Vec<(Tile, i64, i64)> = Vec::new();
        let mut i: usize = 0;
        while i < self.tiles.len()
            invariant
                self.wf(),
                i <= self.tiles@.len(),
                all@.len() == i,
                forall|j: int|
                    0 <= j < i ==> #[trigger] all@[j] == (
                        self.tiles@[j],
                        (j % self.width as int) as i64,
                        (j / self.width as int) as i64,
                    ),
            decreases self.tiles@.len() - i,
        {
            let n = i as i64;
            all.push((self.tiles[i], n % self.width, n / self.width));
            i = i + 1;
        }
        all
    }

    /// The tile on `(x, y)`, or `default` for a position outside the level.
    pub fn get(&self, x: i64, y: i64, default: Tile) -> (t: Tile)
        requires
            self.wf(),
        ensures
            t == (if self.inside(x as int, y as int) {
                self.tile_at(x as int, y as int)
            } else {
                default
            }),
    {
        if x < 0 || y < 0 || x >= self.width || y >= self.height {
            default
        } else {
            self.index(x, y)
        }
    }

    /// The tile on `(x, y)`, a position of the level.
    pub fn index(&self, x: i64, y: i64) -> (t: Tile)
        requires
            self.wf(),
            self.inside(x as int, y as int),
        ensures
            t == self.tile_at(x as int, y as int),
    {
        proof {
            lemma_index_bound(self.width(), self.height(), x as int, y as int);
        }
        self.tiles[(x + y * self.width) as usize]
    }

    /// Puts `tile` at place `i` of the list, whatever position it stands for.
    fn put(&mut self, i: usize, tile: Tile)
        requires
            old(self).wf(),
            i < old(self).tiles().len(),
        ensures
            final(self).wf(),
            final(self).width() == old(self).width(),
            final(self).height() == old(self).height(),
            final(self).tiles() == old(self).tiles().update(i as int, tile),
    {
        self.tiles.set(i, tile);
    }

    /// Puts `tile` on `(x, y)`, a position of the level. Every other position
    /// keeps its tile.
    pub fn index_mut(&mut self, x: i64, y: i64, tile: Tile)
        requires
            old(self).wf(),
            old(self).inside(x as int, y as int),
        ensures
            final(self).wf(),
            final(self).width() == old(self).width(),
            final(self).height() == old(self).height(),
            final(self).tiles() == old(self).tiles().update(x + y * old(self).width(), tile),
            final(self).tile_at(x as int, y as int) == tile,
            forall|a: int, b: int|
                old(self).inside(a, b) && (a != x || b != y) ==> #[trigger] final(self).tile_at(a, b)
                    == old(self).tile_at(a, b),
    {
        proof {
            lemma_index_bound(self.width(), self.height(), x as int, y as int);
        }
        let i = (x + y * self.width) as usize;
        self.tiles.set(i, tile);
        proof {
            assert forall|a: int, b: int|
                old(self).inside(a, b) && (a != x || b != y) implies #[trigger] self.tile_at(a, b)
                == old(self).tile_at(a, b) by {
                lemma_index_bound(self.width(), self.height(), a, b);
                if a + b * self.width() == x + y * self.width() {
                    lemma_index_injective(self.width(), a, b, x as int, y as int);
                }
            }
        }
    }
}

/// A layout generator.
pub trait Generator {
    /// What the generator asks of its own state before it lays out a level of
    /// the given size.
    spec fn ready(&self, width: i64, height: i64) -> bool;

    /// Lays out a level for a world of `width` by `height` tiles. The level
    /// itself is one column and one row smaller; its list holds `width *
    /// height` tiles, and the entry that stands for column 1 of row 1 is the
    /// up staircase.
    fn generate(&mut self, rng: &mut GameRng, width: i64, height: i64) -> (d: Dungeon)
        requires
            2 <= width,
            2 <= height,
            width * height <= i64::MAX,
            width * height <= usize::MAX,
            old(self).ready(width, height),
        ensures
            d.wf(),
            d.width() == width - 1,
            d.height() == height - 1,
            d.tiles().len() == width * height,
            d.tiles()[width as int] == Tile::UpStairs,
            d.enclosed(width as int),
    ;
}

/// The size of the level is within the size of its list.
proof fn lemma_level_in_list(width: int, height: int)
    requires
        2 <= width,
        2 <= height,
    ensures
        0 <= (width - 1) * (height - 1) <= width * height,
        width < width * height,
{
    assert((width - 1) * (height - 1) == width * height - width - height + 1) by (nonlinear_arith);
    assert(0 <= (width - 1) * (height - 1)) by (nonlinear_arith)
        requires
            2 <= width,
            2 <= height,
    ;
    assert(width * 2 <= width * height) by (nonlinear_arith)
        requires
            2 <= width,
            2 <= height,
    ;
}

/// The generator of the empty level: one room that fills the level, walled
/// all around.
pub struct EmptyGenerator;

/// The tile of the empty level on `(x, y)`: wall on the border of the `w` by
/// `h` level, floor inside.
pub open spec fn empty_tile(w: int, h: int, x: int, y: int) -> Tile {
    if x == 0 || x == w - 1 || y == 0 || y == h - 1 {
        Tile::Wall
    } else {
        Tile::Floor
    }
}

impl Generator for EmptyGenerator {
    open spec fn ready(&self, width: i64, height: i64) -> bool {
        true
    }

    /// The empty level: every position holds its `empty_tile`, but for the
    /// one entry that holds the up staircase, and the list behind the level
    /// is unused. No random number is drawn.
    fn generate(&mut self, rng: &mut GameRng, width: i64, height: i64) -> (d: Dungeon)
        ensures
            forall|x: int, y: int|
                0 <= x < width - 1 && 0 <= y < height - 1 && x + y * (width - 1) != width
                    ==> #[trigger] d.tile_at(x, y) == empty_tile(width - 1, height - 1, x, y),
            forall|i: int|
                (width - 1) * (height - 1) <= i < width * height && i != width
                    ==> #[trigger] d.tiles()[i] == Tile::Unused,
    {
        proof {
            lemma_level_in_list(width as int, height as int);
        }
        let w = width - 1;
        let h = height - 1;
        let mut d = Dungeon::new(w, h, (width * height) as usize);
        proof {
            assert forall|x: int, y: int| 0 <= x < w && 0 <= y < h implies #[trigger] d.tile_at(
                x,
                y,
            ) == Tile::Unused by {
                lemma_index_bound(w as int, h as int, x, y);
            }
        }
        let mut i: i64 = 0;
        while i < w
            invariant
                d.wf(),
                w == width - 1,
                h == height - 1,
                1 <= w,
                1 <= h,
                d.width() == w,
                d.height() == h,
                d.tiles().len() == width * height,
                0 <= i <= w,
                forall|x: int, y: int|
                    0 <= x < w && 0 <= y < h ==> #[trigger] d.tile_at(x, y) == (if x < i {
                        empty_tile(w as int, h as int, x, y)
                    } else {
                        Tile::Unused
                    }),
                forall|k: int| w * h <= k < width * height ==> #[trigger] d.tiles()[k] == Tile::Unused,
            decreases w - i,
        {
            let mut j: i64 = 0;
            while j < h
                invariant
                    d.wf(),
                    w == width - 1,
                    h == height - 1,
                    1 <= w,
                    1 <= h,
                    d.width() == w,
                    d.height() == h,
                    d.tiles().len() == width * height,
                    0 <= i < w,
                    0 <= j <= h,
                    forall|x: int, y: int|
                        0 <= x < w && 0 <= y < h ==> #[trigger] d.tile_at(x, y) == (if x < i || (x
                            == i && y < j) {
                            empty_tile(w as int, h as int, x, y)
                        } else {
                            Tile::Unused
                        }),
                    forall|k: int|
                        w * h <= k < width * height ==> #[trigger] d.tiles()[k] == Tile::Unused,
                decreases h - j,
            {
                proof {
                    lemma_index_bound(w as int, h as int, i as int, j as int);
                }
                if i == 0 || i == width - 2 || j == 0 || j == height - 2 {
                    d.index_mut(i, j, Tile::Wall);
                } else {
                    d.index_mut(i, j, Tile::Floor);
                }
                j = j + 1;
            }
            i = i + 1;
        }
        let ghost before = d;
        d.put(width as usize, Tile::UpStairs);
        proof {
            assert forall|x: int, y: int|
                0 <= x < width - 1 && 0 <= y < height - 1 && x + y * (width - 1)
                    != width implies #[trigger] d.tile_at(x, y) == empty_tile(
                width - 1,
                height - 1,
                x,
                y,
            ) by {
                lemma_index_bound(w as int, h as int, x, y);
                assert(d.tile_at(x, y) == before.tile_at(x, y));
            }
            assert forall|x: int, y: int|
                d.inside(x, y) && x + y * d.width() != width && (#[trigger] d.tile_at(
                    x,
                    y,
                )).walkable() implies d.enclosed_at(x, y) by {
                assert(d.tile_at(x, y) == empty_tile(w as int, h as int, x, y));
                lemma_replaced_tile(before, d, width as int, Tile::UpStairs, x - 1, y - 1);
                lemma_replaced_tile(before, d, width as int, Tile::UpStairs, x, y - 1);
                lemma_replaced_tile(before, d, width as int, Tile::UpStairs, x + 1, y - 1);
                lemma_replaced_tile(before, d, width as int, Tile::UpStairs, x - 1, y);
                lemma_replaced_tile(before, d, width as int, Tile::UpStairs, x + 1, y);
                lemma_replaced_tile(before, d, width as int, Tile::UpStairs, x - 1, y + 1);
                lemma_replaced_tile(before, d, width as int, Tile::UpStairs, x, y + 1);
                lemma_replaced_tile(before, d, width as int, Tile::UpStairs, x + 1, y + 1);
            }
        }
        d
    }
}

/// A rectangle of tiles: `width` columns from `x` on, `height` rows from `y`
/// on.
#[derive(Clone, Copy, Debug, PartialEq, Eq, Structural)]
pub struct Rect {
    pub x: i64,
    pub y: i64,
    pub width: i64,
    pub height: i64,
}

/// The side of a room or corridor on which a feature is built.
#[derive(Clone, Copy, Debug, PartialEq, Eq, Structural)]
pub enum Direction {
    North,
    South,
    East,
    West,
}

pub const MIN_ROOM_SIZE: i64 = 3;

pub const MAX_ROOM_SIZE: i64 = 6;

pub const MIN_CORRIDOR_LENGTH: i64 = 3;

pub const MAX_CORRIDOR_LENGTH: i64 = 6;

/// The greatest coordinate, either way, for which the rectangles of the
/// generator are computed without leaving the range of the integers.
pub const COORDINATE_LIMIT: i64 = 0x1fff_ffff_ffff_ffff;

impl Rect {
    /// Whether `(x, y)` is a tile of the rectangle.
    pub open spec fn holds(self, x: int, y: int) -> bool {
        self.x <= x < self.x + self.width && self.y <= y < self.y + self.height
    }

    /// Whether `(x, y)` is a tile of the rectangle or of the ring of tiles
    /// around it.
    pub open spec fn walled(self, x: int, y: int) -> bool {
        self.x - 1 <= x <= self.x + self.width && self.y - 1 <= y <= self.y + self.height
    }

    /// Whether the sums formed over the rectangle stay within the range of
    /// the integers.
    pub open spec fn bounded(self) -> bool {
        &&& -2 * COORDINATE_LIMIT <= self.x <= 2 * COORDINATE_LIMIT
        &&& -2 * COORDINATE_LIMIT <= self.y <= 2 * COORDINATE_LIMIT
        &&& 0 <= self.width <= COORDINATE_LIMIT
        &&& 0 <= self.height <= COORDINATE_LIMIT
    }
}

/// The room of `width` by `height` tiles that is built on the `dir` side of
/// the tile `(x, y)`.
pub open spec fn room_rect(x: i64, y: i64, dir: Direction, width: i64, height: i64) -> Rect {
    match dir {
        Direction::North => Rect {
            x: (x - width / 2) as i64,
            y: (y - height) as i64,
            width,
            height,
        },
        Direction::South => Rect { x: (x - width / 2) as i64, y: (y + 1) as i64, width, height },
        Direction::West => Rect {
            x: (x - width) as i64,
            y: (y - height / 2) as i64,
            width,
            height,
        },
        Direction::East => Rect { x: (x + 1) as i64, y: (y - height / 2) as i64, width, height },
    }
}

/// The corridor of `length` tiles that is built on the `dir` side of the tile
/// `(x, y)`: one row high if `horizontal`, one column wide if not. A corridor
/// that runs along the side it is built on can lie either way from the tile:
/// `flip` tells which.
pub open spec fn corridor_rect(
    x: i64,
    y: i64,
    dir: Direction,
    horizontal: bool,
    length: i64,
    flip: bool,
) -> Rect {
    if horizontal {
        match dir {
            Direction::North => Rect {
                x: if flip {
                    (x - length + 1) as i64
                } else {
                    x
                },
                y: (y - 1) as i64,
                width: length,
                height: 1,
            },
            Direction::South => Rect {
                x: if flip {
                    (x - length + 1) as i64
                } else {
                    x
                },
                y: (y + 1) as i64,
                width: length,
                height: 1,
            },
            Direction::West => Rect { x: (x - length) as i64, y, width: length, height: 1 },
            Direction::East => Rect { x: (x + 1) as i64, y, width: length, height: 1 },
        }
    } else {
        match dir {
            Direction::North => Rect { x, y: (y - length) as i64, width: 1, height: length },
            Direction::South => Rect { x, y: (y + 1) as i64, width: 1, height: length },
            Direction::West => Rect {
                x: (x - 1) as i64,
                y: if flip {
                    (y - length + 1) as i64
                } else {
                    y
                },
                width: 1,
                height: length,
            },
            Direction::East => Rect {
                x: (x + 1) as i64,
                y: if flip {
                    (y - length + 1) as i64
                } else {
                    y
                },
                width: 1,
                height: length,
            },
        }
    }
}

/// Whether a corridor built on the `dir` side runs along that side, so that
/// it can lie either way.
pub open spec fn runs_along(dir: Direction, horizontal: bool) -> bool {
    if horizontal {
        dir == Direction::North || dir == Direction::South
    } else {
        dir == Direction::West || dir == Direction::East
    }
}

/// The room of `width` by `height` tiles on the `dir` side of `(x, y)`.
pub fn room_at(x: i64, y: i64, dir: Direction, width: i64, height: i64) -> (room: Rect)
    requires
        -COORDINATE_LIMIT <= x <= COORDINATE_LIMIT,
        -COORDINATE_LIMIT <= y <= COORDINATE_LIMIT,
        0 <= width <= COORDINATE_LIMIT,
        0 <= height <= COORDINATE_LIMIT,
    ensures
        room == room_rect(x, y, dir, width, height),
{
    match dir {
        Direction::North => Rect { x: x - width / 2, y: y - height, width, height },
        Direction::South => Rect { x: x - width / 2, y: y + 1, width, height },
        Direction::West => Rect { x: x - width, y: y - height / 2, width, height },
        Direction::East => Rect { x: x + 1, y: y - height / 2, width, height },
    }
}

/// The corridor of `length` tiles on the `dir` side of `(x, y)`.
pub fn corridor_at(x: i64, y: i64, dir: Direction, horizontal: bool, length: i64, flip: bool) -> (corridor:
    Rect)
    requires
        -COORDINATE_LIMIT <= x <= COORDINATE_LIMIT,
        -COORDINATE_LIMIT <= y <= COORDINATE_LIMIT,
        0 <= length <= COORDINATE_LIMIT,
    ensures
        corridor == corridor_rect(x, y, dir, horizontal, length, flip),
{
    if horizontal {
        match dir {
            Direction::North => Rect {
                x: if flip {
                    x - length + 1
                } else {
                    x
                },
                y: y - 1,
                width: length,
                height: 1,
            },
            Direction::South => Rect {
                x: if flip {
                    x - length + 1
                } else {
                    x
                },
                y: y + 1,
                width: length,
                height: 1,
            },
            Direction::West => Rect { x: x - length, y, width: length, height: 1 },
            Direction::East => Rect { x: x + 1, y, width: length, height: 1 },
        }
    } else {
        match dir {
            Direction::North => Rect { x, y: y - length, width: 1, height: length },
            Direction::South => Rect { x, y: y + 1, width: 1, height: length },
            Direction::West => Rect {
                x: x - 1,
                y: if flip {
                    y - length + 1
                } else {
                    y
                },
                width: 1,
                height: length,
            },
            Direction::East => Rect {
                x: x + 1,
                y: if flip {
                    y - length + 1
                } else {
                    y
                },
                width: 1,
                height: length,
            },
        }
    }
}

/// The four directions.
pub open spec fn all_directions() -> Seq<Direction> {
    seq![Direction::North, Direction::South, Direction::East, Direction::West]
}

/// The four directions in a random order: each of them once.
pub fn shuffled_directions(rng: &mut GameRng) -> (directions: Vec<Direction>)
    ensures
        directions@.len() == 4,
        directions@.to_multiset() == all_directions().to_multiset(),
        forall|dir: Direction| directions@.contains(dir),
{
    let mut directions: Vec<Direction> = Vec::new();
    directions.push(Direction::North);
    directions.push(Direction::South);
    directions.push(Direction::East);
    directions.push(Direction::West);
    assert(directions@ =~= all_directions());
    shuffle(rng, &mut directions);
    proof {
        directions@.to_multiset_ensures();
        all_directions().to_multiset_ensures();
        assert forall|dir: Direction| directions@.contains(dir) by {
            let at: int = match dir {
                Direction::North => 0,
                Direction::South => 1,
                Direction::East => 2,
                Direction::West => 3,
            };
            assert(all_directions()[at] == dir);
            assert(all_directions().contains(dir));
            assert(all_directions().to_multiset().count(dir) > 0);
        }
    }
    directions
}

/// Whether `rect` can be laid on the level: it keeps one tile clear of the
/// border of the level, and every tile of it is unused.
pub open spec fn rect_free(d: Dungeon, rect: Rect) -> bool {
    &&& rect.x >= 1
    &&& rect.y >= 1
    &&& rect.x + rect.width <= d.width() - 1
    &&& rect.y + rect.height <= d.height() - 1
    &&& forall|x: int, y: int| rect.holds(x, y) ==> #[trigger] d.tile_at(x, y) == Tile::Unused
}

/// Whether `after` is `before` with `rect` laid on it: `fill` on the tiles of
/// the rectangle, wall on the ring around it, with `door` on the tile `(x, y)`
/// if `door` is given, and every other tile as it was.
pub open spec fn laid(
    before: Dungeon,
    after: Dungeon,
    rect: Rect,
    fill: Tile,
    door: Option<(int, int, Tile)>,
) -> bool {
    &&& after.width() == before.width()
    &&& after.height() == before.height()
    &&& after.tiles().len() == before.tiles().len()
    &&& forall|x: int, y: int|
        before.inside(x, y) ==> #[trigger] after.tile_at(x, y) == (if door matches Some(d) && d.0
            == x && d.1 == y {
            door.unwrap().2
        } else if rect.holds(x, y) {
            fill
        } else if rect.walled(x, y) {
            Tile::Wall
        } else {
            before.tile_at(x, y)
        })
    &&& forall|i: int|
        before.width() * before.height() <= i < before.tiles().len() ==> #[trigger] after.tiles()[i]
            == before.tiles()[i]
}

/// Whether the tile on `(x, y)` is used already or lies under `rect` or the
/// ring around it.
pub open spec fn covered(d: Dungeon, rect: Rect, x: int, y: int) -> bool {
    d.tile_at(x, y) != Tile::Unused || rect.walled(x, y)
}

/// Whether the tile `(x, y)` can take the door of a feature that is laid as
/// `rect`: it lies off the border of the level, and each of the eight tiles
/// around it is used already or lies under the feature or its ring.
pub open spec fn door_fits(d: Dungeon, rect: Rect, x: int, y: int) -> bool {
    &&& 1 <= x <= d.width() - 2
    &&& 1 <= y <= d.height() - 2
    &&& covered(d, rect, x - 1, y - 1)
    &&& covered(d, rect, x, y - 1)
    &&& covered(d, rect, x + 1, y - 1)
    &&& covered(d, rect, x - 1, y)
    &&& covered(d, rect, x + 1, y)
    &&& covered(d, rect, x - 1, y + 1)
    &&& covered(d, rect, x, y + 1)
    &&& covered(d, rect, x + 1, y + 1)
}

/// The tile from which a feature on the `dir` side of `(x, y)` is entered:
/// the one on the other side of `(x, y)`.
pub open spec fn behind(x: int, y: int, dir: Direction) -> (int, int) {
    match dir {
        Direction::North => (x, y + 1),
        Direction::South => (x, y - 1),
        Direction::West => (x + 1, y),
        Direction::East => (x - 1, y),
    }
}

/// The door of a room fits: where the tile behind `(x, y)` is set in and the
/// room on the `dir` side of `(x, y)` is free, `(x, y)` can take the door.
pub proof fn lemma_room_door_fits(d: Dungeon, x: i64, y: i64, dir: Direction, w: i64, h: i64)
    requires
        d.wf(),
        -COORDINATE_LIMIT <= x <= COORDINATE_LIMIT,
        -COORDINATE_LIMIT <= y <= COORDINATE_LIMIT,
        MIN_ROOM_SIZE <= w <= MAX_ROOM_SIZE,
        MIN_ROOM_SIZE <= h <= MAX_ROOM_SIZE,
        d.inside(behind(x as int, y as int, dir).0, behind(x as int, y as int, dir).1),
        d.tile_at(behind(x as int, y as int, dir).0, behind(x as int, y as int, dir).1)
            != Tile::Unused,
        d.enclosed_at(behind(x as int, y as int, dir).0, behind(x as int, y as int, dir).1),
        rect_free(d, room_rect(x, y, dir, w, h)),
    ensures
        door_fits(d, room_rect(x, y, dir, w, h), x as int, y as int),
{
}

/// The door of a corridor fits: where the tile behind `(x, y)` is set in and
/// the corridor on the `dir` side of `(x, y)` is free, `(x, y)` can take the
/// door.
pub proof fn lemma_corridor_door_fits(
    d: Dungeon,
    x: i64,
    y: i64,
    dir: Direction,
    horizontal: bool,
    length: i64,
    flip: bool,
)
    requires
        d.wf(),
        -COORDINATE_LIMIT <= x <= COORDINATE_LIMIT,
        -COORDINATE_LIMIT <= y <= COORDINATE_LIMIT,
        MIN_CORRIDOR_LENGTH <= length <= MAX_CORRIDOR_LENGTH,
        d.inside(behind(x as int, y as int, dir).0, behind(x as int, y as int, dir).1),
        d.tile_at(behind(x as int, y as int, dir).0, behind(x as int, y as int, dir).1)
            != Tile::Unused,
        d.enclosed_at(behind(x as int, y as int, dir).0, behind(x as int, y as int, dir).1),
        rect_free(d, corridor_rect(x, y, dir, horizontal, length, flip)),
    ensures
        door_fits(d, corridor_rect(x, y, dir, horizontal, length, flip), x as int, y as int),
{
}

/// The tile on the `dir` side of `(x, y)`: the first tile of a feature that is
/// built there.
pub open spec fn ahead(x: int, y: int, dir: Direction) -> (int, int) {
    match dir {
        Direction::North => (x, y - 1),
        Direction::South => (x, y + 1),
        Direction::West => (x - 1, y),
        Direction::East => (x + 1, y),
    }
}

/// A room on the `dir` side of `(x, y)` holds the tile ahead of `(x, y)`.
pub proof fn lemma_room_ahead(x: i64, y: i64, dir: Direction, w: i64, h: i64)
    requires
        -COORDINATE_LIMIT <= x <= COORDINATE_LIMIT,
        -COORDINATE_LIMIT <= y <= COORDINATE_LIMIT,
        MIN_ROOM_SIZE <= w <= MAX_ROOM_SIZE,
        MIN_ROOM_SIZE <= h <= MAX_ROOM_SIZE,
    ensures
        room_rect(x, y, dir, w, h).holds(
            ahead(x as int, y as int, dir).0,
            ahead(x as int, y as int, dir).1,
        ),
{
}

/// A corridor on the `dir` side of `(x, y)` holds the tile ahead of `(x, y)`.
pub proof fn lemma_corridor_ahead(
    x: i64,
    y: i64,
    dir: Direction,
    horizontal: bool,
    length: i64,
    flip: bool,
)
    requires
        -COORDINATE_LIMIT <= x <= COORDINATE_LIMIT,
        -COORDINATE_LIMIT <= y <= COORDINATE_LIMIT,
        MIN_CORRIDOR_LENGTH <= length <= MAX_CORRIDOR_LENGTH,
    ensures
        corridor_rect(x, y, dir, horizontal, length, flip).holds(
            ahead(x as int, y as int, dir).0,
            ahead(x as int, y as int, dir).1,
        ),
{
}

/// A door goes on no tile that can be walked on: the tile ahead of it is
/// unused, so that it is not set in.
pub proof fn lemma_door_on_wall(d: Dungeon, rect: Rect, x: int, y: int, dir: Direction)
    requires
        d.wf(),
        d.enclosed(-1),
        d.inside(x, y),
        rect_free(d, rect),
        rect.holds(ahead(x, y, dir).0, ahead(x, y, dir).1),
    ensures
        !d.tile_at(x, y).walkable(),
{
    assert(d.tile_at(ahead(x, y, dir).0, ahead(x, y, dir).1) == Tile::Unused);
    if d.tile_at(x, y).walkable() {
        lemma_index_bound(d.width(), d.height(), x, y);
        assert(d.enclosed_at(x, y));
    }
}

/// Whether the level has a room in its middle: some room of the sizes that
/// the generator draws, built north of the middle tile, of which every tile
/// can be walked on.
pub open spec fn has_middle_room(d: Dungeon) -> bool {
    exists|w: i64, h: i64|
        MIN_ROOM_SIZE <= w <= MAX_ROOM_SIZE && MIN_ROOM_SIZE <= h <= MAX_ROOM_SIZE && room_built(
            d,
            #[trigger] room_rect((d.width() / 2) as i64, (d.height() / 2) as i64, Direction::North, w, h),
        )
}

/// Whether every tile of `room` is a tile of the level that can be walked on.
pub open spec fn room_built(d: Dungeon, room: Rect) -> bool {
    forall|x: int, y: int| room.holds(x, y) ==> d.inside(x, y) && (#[trigger] d.tile_at(x, y)).walkable()
}

/// Whether no tile of the level is used.
pub open spec fn untouched(d: Dungeon) -> bool {
    forall|x: int, y: int| d.inside(x, y) ==> #[trigger] d.tile_at(x, y) == Tile::Unused
}

/// The least width of a level in whose middle a room is sure to fit.
pub const ROOMY_WIDTH: i64 = 8;

/// The least height of a level in whose middle a room is sure to fit.
pub const ROOMY_HEIGHT: i64 = 14;

/// Whether every tile of `before` that can be walked on can be walked on in
/// `after`.
pub open spec fn keeps_walkable(before: Dungeon, after: Dungeon) -> bool {
    &&& after.width() == before.width()
    &&& after.height() == before.height()
    &&& forall|x: int, y: int|
        before.inside(x, y) && (#[trigger] before.tile_at(x, y)).walkable() ==> after.tile_at(
            x,
            y,
        ).walkable()
}

/// A room that is built stays built while nothing is taken away that can be
/// walked on.
pub proof fn lemma_keeps_room(before: Dungeon, after: Dungeon, room: Rect)
    requires
        keeps_walkable(before, after),
        room_built(before, room),
    ensures
        room_built(after, room),
{
    assert forall|x: int, y: int| room.holds(x, y) implies after.inside(x, y) && (
    #[trigger] after.tile_at(x, y)).walkable() by {
        assert(before.tile_at(x, y).walkable());
    }
}

/// What can be walked on is kept from step to step.
pub proof fn lemma_keeps_walkable_twice(a: Dungeon, b: Dungeon, c: Dungeon)
    requires
        keeps_walkable(a, b),
        keeps_walkable(b, c),
    ensures
        keeps_walkable(a, c),
{
    assert forall|x: int, y: int|
        a.inside(x, y) && (#[trigger] a.tile_at(x, y)).walkable() implies c.tile_at(
        x,
        y,
    ).walkable() by {
        assert(b.tile_at(x, y).walkable());
    }
}

/// What can be walked on in an enclosed level lies under no feature that is
/// laid later, nor under its ring, nor under its door: every tile of a
/// feature or next to one is next to an unused tile.
pub proof fn lemma_laid_keeps_walkable(
    before: Dungeon,
    after: Dungeon,
    rect: Rect,
    fill: Tile,
    door: Option<(int, int, Tile)>,
)
    requires
        before.wf(),
        before.enclosed(-1),
        rect_free(before, rect),
        rect.width >= 1,
        rect.height >= 1,
        laid(before, after, rect, fill, door),
        door matches Some(d) ==> before.inside(d.0, d.1) && !before.tile_at(d.0, d.1).walkable(),
    ensures
        keeps_walkable(before, after),
{
    assert forall|x: int, y: int|
        before.inside(x, y) && (#[trigger] before.tile_at(x, y)).walkable() implies after.tile_at(
        x,
        y,
    ).walkable() by {
        assert(before.enclosed_at(x, y));
        if rect.walled(x, y) {
            let cx = if x < rect.x {
                rect.x as int
            } else if x > rect.x + rect.width - 1 {
                rect.x + rect.width - 1
            } else {
                x
            };
            let cy = if y < rect.y {
                rect.y as int
            } else if y > rect.y + rect.height - 1 {
                rect.y + rect.height - 1
            } else {
                y
            };
            assert(rect.holds(cx, cy));
            assert(before.tile_at(cx, cy) == Tile::Unused);
        }
    }
}

/// Laying a feature keeps a level enclosed: the feature brings its own ring
/// of walls, and its door, if it has one, goes where it fits.
pub proof fn lemma_laid_enclosed(
    before: Dungeon,
    after: Dungeon,
    rect: Rect,
    fill: Tile,
    door: Option<(int, int, Tile)>,
)
    requires
        before.wf(),
        before.enclosed(-1),
        rect_free(before, rect),
        laid(before, after, rect, fill, door),
        fill != Tile::Unused,
        door matches Some(d) ==> d.2 != Tile::Unused && door_fits(before, rect, d.0, d.1),
    ensures
        after.enclosed(-1),
{
    assert forall|x: int, y: int|
        after.inside(x, y) && x + y * after.width() != -1 && (#[trigger] after.tile_at(
            x,
            y,
        )).walkable() implies after.enclosed_at(x, y) by {
        assert(before.inside(x, y));
        if door matches Some(d) && d.0 == x && d.1 == y {
            assert(door_fits(before, rect, x, y));
        } else if rect.holds(x, y) {
        } else if rect.walled(x, y) {
        } else {
            lemma_index_bound(before.width(), before.height(), x, y);
            assert(before.tile_at(x, y).walkable());
            assert(before.enclosed_at(x, y));
        }
    }
}

/// What a level holds on `(a, b)` after one entry of its list was replaced.
proof fn lemma_replaced_tile(before: Dungeon, after: Dungeon, at: int, tile: Tile, a: int, b: int)
    requires
        before.wf(),
        before.inside(a, b),
        0 <= at < before.tiles().len(),
        after.width() == before.width(),
        after.height() == before.height(),
        after.tiles() == before.tiles().update(at, tile),
    ensures
        after.tile_at(a, b) == (if a + b * before.width() == at {
            tile
        } else {
            before.tile_at(a, b)
        }),
{
    lemma_index_bound(before.width(), before.height(), a, b);
}

/// What a level holds around `(a, b)` after one entry of its list was
/// replaced by something that is not unused: nothing around a tile that was
/// set in has become unused.
proof fn lemma_replaced_around(before: Dungeon, after: Dungeon, at: int, tile: Tile, a: int, b: int)
    requires
        before.wf(),
        before.inside(a, b),
        before.enclosed_at(a, b),
        tile != Tile::Unused,
        0 <= at < before.tiles().len(),
        after.width() == before.width(),
        after.height() == before.height(),
        after.tiles() == before.tiles().update(at, tile),
    ensures
        after.enclosed_at(a, b),
{
    lemma_replaced_tile(before, after, at, tile, a - 1, b - 1);
    lemma_replaced_tile(before, after, at, tile, a, b - 1);
    lemma_replaced_tile(before, after, at, tile, a + 1, b - 1);
    lemma_replaced_tile(before, after, at, tile, a - 1, b);
    lemma_replaced_tile(before, after, at, tile, a + 1, b);
    lemma_replaced_tile(before, after, at, tile, a - 1, b + 1);
    lemma_replaced_tile(before, after, at, tile, a, b + 1);
    lemma_replaced_tile(before, after, at, tile, a + 1, b + 1);
}

/// Putting something that can be walked on at a place of the list takes
/// nothing away that can be walked on.
pub proof fn lemma_replaced_keeps_walkable(before: Dungeon, after: Dungeon, at: int, tile: Tile)
    requires
        before.wf(),
        tile.walkable(),
        0 <= at < before.tiles().len(),
        after.width() == before.width(),
        after.height() == before.height(),
        after.tiles() == before.tiles().update(at, tile),
    ensures
        keeps_walkable(before, after),
{
    assert forall|x: int, y: int|
        before.inside(x, y) && (#[trigger] before.tile_at(x, y)).walkable() implies after.tile_at(
        x,
        y,
    ).walkable() by {
        lemma_replaced_tile(before, after, at, tile, x, y);
    }
}

/// Putting something in place of a tile that can be walked on keeps a level
/// enclosed.
pub proof fn lemma_replaced_enclosed(before: Dungeon, after: Dungeon, x: int, y: int, tile: Tile)
    requires
        before.wf(),
        before.enclosed(-1),
        before.inside(x, y),
        before.tile_at(x, y).walkable(),
        tile != Tile::Unused,
        after.width() == before.width(),
        after.height() == before.height(),
        after.tiles() == before.tiles().update(x + y * before.width(), tile),
    ensures
        after.enclosed(-1),
{
    assert forall|a: int, b: int|
        after.inside(a, b) && a + b * after.width() != -1 && (#[trigger] after.tile_at(
            a,
            b,
        )).walkable() implies after.enclosed_at(a, b) by {
        lemma_index_bound(before.width(), before.height(), x, y);
        let at = x + y * before.width();
        lemma_replaced_tile(before, after, at, tile, a, b);
        if a + b * before.width() == at {
            lemma_index_injective(before.width(), a, b, x, y);
        }
        assert(before.tile_at(a, b).walkable());
        assert(before.enclosed_at(a, b));
        lemma_replaced_around(before, after, at, tile, a, b);
    }
}

/// Putting the up staircase at a place of the list leaves a level enclosed but
/// for that place.
pub proof fn lemma_stairs_enclosed(before: Dungeon, after: Dungeon, at: int)
    requires
        before.wf(),
        before.enclosed(-1),
        0 <= at < before.tiles().len(),
        after.width() == before.width(),
        after.height() == before.height(),
        after.tiles() == before.tiles().update(at, Tile::UpStairs),
    ensures
        after.enclosed(at),
{
    assert forall|a: int, b: int|
        after.inside(a, b) && a + b * after.width() != at && (#[trigger] after.tile_at(
            a,
            b,
        )).walkable() implies after.enclosed_at(a, b) by {
        lemma_replaced_tile(before, after, at, Tile::UpStairs, a, b);
        assert(before.tile_at(a, b).walkable());
        assert(before.enclosed_at(a, b));
        lemma_replaced_around(before, after, at, Tile::UpStairs, a, b);
    }
}

/// Whether every room that can be drawn on the `dir` side of `(x, y)` is free
/// on the level.
pub open spec fn every_room_free(d: Dungeon, x: i64, y: i64, dir: Direction) -> bool {
    forall|w: i64, h: i64|
        MIN_ROOM_SIZE <= w <= MAX_ROOM_SIZE && MIN_ROOM_SIZE <= h <= MAX_ROOM_SIZE ==> rect_free(
            d,
            #[trigger] room_rect(x, y, dir, w, h),
        )
}

/// Whether every corridor that can be drawn on the `dir` side of `(x, y)` is
/// free on the level.
pub open spec fn every_corridor_free(d: Dungeon, x: i64, y: i64, dir: Direction) -> bool {
    forall|horizontal: bool, length: i64, flip: bool|
        MIN_CORRIDOR_LENGTH <= length <= MAX_CORRIDOR_LENGTH ==> rect_free(
            d,
            #[trigger] corridor_rect(x, y, dir, horizontal, length, flip),
        )
}

/// Whether `(x, y)` is a tile of the room that does not touch its walls.
pub open spec fn well_inside(room: Rect, x: int, y: int) -> bool {
    room.holds(x - 1, y - 1) && room.holds(x + 1, y + 1)
}

/// Whether every tile of every room of `rooms` that does not touch its walls
/// is floor.
pub open spec fn every_room_clear(d: Dungeon, rooms: Seq<Rect>) -> bool {
    forall|r: int, x: int, y: int|
        0 <= r < rooms.len() && #[trigger] well_inside(rooms[r], x, y) ==> d.tile_at(x, y)
            == Tile::Floor
}

/// The exits that a new room offers: its north, south, west and east side, in
/// that order, but for the side that it was built from, which only the first
/// room of a level keeps.
pub open spec fn room_exits(room: Rect, dir: Direction, first_room: bool) -> Seq<Rect> {
    let north = if dir != Direction::South || first_room {
        seq![Rect { x: room.x, y: (room.y - 1) as i64, width: room.width, height: 1 }]
    } else {
        seq![]
    };
    let south = if dir != Direction::North || first_room {
        seq![Rect { x: room.x, y: (room.y + room.height) as i64, width: room.width, height: 1 }]
    } else {
        seq![]
    };
    let west = if dir != Direction::East || first_room {
        seq![Rect { x: (room.x - 1) as i64, y: room.y, width: 1, height: room.height }]
    } else {
        seq![]
    };
    let east = if dir != Direction::West || first_room {
        seq![Rect { x: (room.x + room.width) as i64, y: room.y, width: 1, height: room.height }]
    } else {
        seq![]
    };
    north + south + west + east
}

/// The exits that a new corridor offers: its long sides, and the end that it
/// was not built from.
pub open spec fn corridor_exits(c: Rect, dir: Direction) -> Seq<Rect> {
    let north = if dir != Direction::South && c.width != 1 {
        seq![Rect { x: c.x, y: (c.y - 1) as i64, width: c.width, height: 1 }]
    } else {
        seq![]
    };
    let south = if dir != Direction::North && c.width != 1 {
        seq![Rect { x: c.x, y: (c.y + c.height) as i64, width: c.width, height: 1 }]
    } else {
        seq![]
    };
    let west = if dir != Direction::East && c.height != 1 {
        seq![Rect { x: (c.x - 1) as i64, y: c.y, width: 1, height: c.height }]
    } else {
        seq![]
    };
    let east = if dir != Direction::West && c.height != 1 {
        seq![Rect { x: (c.x + c.width) as i64, y: c.y, width: 1, height: c.height }]
    } else {
        seq![]
    };
    north + south + west + east
}

/// Whether `r` is a room that lies on a `w` by `h` level, one tile clear of
/// its border.
pub open spec fn room_fits(r: Rect, w: int, h: int) -> bool {
    &&& 1 <= r.x
    &&& 1 <= r.y
    &&& r.x + r.width <= w - 1
    &&& r.y + r.height <= h - 1
    &&& MIN_ROOM_SIZE <= r.width <= MAX_ROOM_SIZE
    &&& MIN_ROOM_SIZE <= r.height <= MAX_ROOM_SIZE
}

/// Whether `r` is an exit that lies on a `w` by `h` level.
pub open spec fn exit_fits(r: Rect, w: int, h: int) -> bool {
    &&& 0 <= r.x
    &&& 0 <= r.y
    &&& r.x + r.width <= w
    &&& r.y + r.height <= h
    &&& 1 <= r.width <= MAX_ROOM_SIZE
    &&& 1 <= r.height <= MAX_ROOM_SIZE
}

/// Whether a feature can be entered at `(x, y)` from the other side than
/// `dir`: the tile behind `(x, y)` is floor or corridor.
pub open spec fn entry_open(d: Dungeon, x: int, y: int, dir: Direction) -> bool {
    let b = behind(x, y, dir);
    d.inside(b.0, b.1) && (d.tile_at(b.0, b.1) == Tile::Floor || d.tile_at(b.0, b.1)
        == Tile::Corridor)
}

/// The door of a corridor that is entered at `(x, y)`: a closed door where it
/// is entered from floor, and a piece of corridor where it is entered from a
/// corridor.
pub open spec fn corridor_door(d: Dungeon, x: int, y: int, dir: Direction) -> Tile {
    let b = behind(x, y, dir);
    if d.tile_at(b.0, b.1) == Tile::Floor {
        Tile::ClosedDoor
    } else {
        Tile::Corridor
    }
}

/// Whether a room of `w` by `h` tiles was built as a feature on the `dir`
/// side of `(x, y)`: the room was free, it is laid as floor with a closed
/// door on `(x, y)`, and it is remembered with its exits, after the rooms and
/// exits that were remembered before.
pub open spec fn room_featured(
    rooms: Seq<Rect>,
    exits: Seq<Rect>,
    before: Dungeon,
    new_rooms: Seq<Rect>,
    new_exits: Seq<Rect>,
    after: Dungeon,
    x: i64,
    y: i64,
    dir: Direction,
    w: i64,
    h: i64,
) -> bool {
    let room = room_rect(x, y, dir, w, h);
    &&& MIN_ROOM_SIZE <= w <= MAX_ROOM_SIZE
    &&& MIN_ROOM_SIZE <= h <= MAX_ROOM_SIZE
    &&& rect_free(before, room)
    &&& laid(before, after, room, Tile::Floor, Some((x as int, y as int, Tile::ClosedDoor)))
    &&& new_rooms == rooms.push(room)
    &&& new_exits == exits + room_exits(room, dir, false)
}

/// Whether a corridor was built as a feature on the `dir` side of `(x, y)`:
/// the corridor was free, it is laid with its door on `(x, y)`, and its exits
/// are remembered after those that were remembered before.
pub open spec fn corridor_featured(
    rooms: Seq<Rect>,
    exits: Seq<Rect>,
    before: Dungeon,
    new_rooms: Seq<Rect>,
    new_exits: Seq<Rect>,
    after: Dungeon,
    x: i64,
    y: i64,
    dir: Direction,
    horizontal: bool,
    length: i64,
    flip: bool,
) -> bool {
    let c = corridor_rect(x, y, dir, horizontal, length, flip);
    &&& MIN_CORRIDOR_LENGTH <= length <= MAX_CORRIDOR_LENGTH
    &&& rect_free(before, c)
    &&& laid(
        before,
        after,
        c,
        Tile::Corridor,
        Some((x as int, y as int, corridor_door(before, x as int, y as int, dir))),
    )
    &&& new_rooms == rooms
    &&& new_exits == exits + corridor_exits(c, dir)
}

/// Whether a feature was built on the `dir` side of `(x, y)`: it could be
/// entered there, and it is a room or a corridor of one of the sizes that are
/// drawn.
pub open spec fn featured(
    rooms: Seq<Rect>,
    exits: Seq<Rect>,
    before: Dungeon,
    new_rooms: Seq<Rect>,
    new_exits: Seq<Rect>,
    after: Dungeon,
    x: i64,
    y: i64,
    dir: Direction,
) -> bool {
    &&& entry_open(before, x as int, y as int, dir)
    &&& (exists|w: i64, h: i64| #[trigger]
        room_featured(rooms, exits, before, new_rooms, new_exits, after, x, y, dir, w, h))
        || (exists|horizontal: bool, length: i64, flip: bool| #[trigger]
        corridor_featured(
            rooms,
            exits,
            before,
            new_rooms,
            new_exits,
            after,
            x,
            y,
            dir,
            horizontal,
            length,
            flip,
        ))
}

/// Whether a feature is built for sure on the `dir` side of `(x, y)`,
/// whatever is drawn: it can be entered there, and every room and every
/// corridor that can be drawn is free.
pub open spec fn sure_at(d: Dungeon, x: i64, y: i64, dir: Direction) -> bool {
    &&& entry_open(d, x as int, y as int, dir)
    &&& every_room_free(d, x, y, dir)
    &&& every_corridor_free(d, x, y, dir)
}

/// Whether a feature is built for sure on some side of `(x, y)`.
pub open spec fn sure_beside(d: Dungeon, x: i64, y: i64) -> bool {
    ||| sure_at(d, x, y, Direction::North)
    ||| sure_at(d, x, y, Direction::South)
    ||| sure_at(d, x, y, Direction::East)
    ||| sure_at(d, x, y, Direction::West)
}

/// Whether a feature is built for sure, whatever is drawn: an exit is left,
/// and beside every tile of every exit a feature is built for sure.
pub open spec fn feature_sure(d: Dungeon, exits: Seq<Rect>) -> bool {
    &&& exits.len() > 0
    &&& forall|r: int, x: i64, y: i64|
        0 <= r < exits.len() && #[trigger] exits[r].holds(x as int, y as int) ==> sure_beside(
            d,
            x,
            y,
        )
}

/// Whether a feature was built beside the tile `(x, y)` of the exit at place
/// `r`, on its `dir` side, and the exit was forgotten: `grown` are the exits
/// with those of the feature, before the exit left them.
pub open spec fn feature_tried(
    rooms: Seq<Rect>,
    exits: Seq<Rect>,
    before: Dungeon,
    new_rooms: Seq<Rect>,
    new_exits: Seq<Rect>,
    after: Dungeon,
    r: int,
    x: i64,
    y: i64,
    dir: Direction,
    grown: Seq<Rect>,
) -> bool {
    &&& 0 <= r < exits.len()
    &&& exits[r].holds(x as int, y as int)
    &&& featured(rooms, exits, before, new_rooms, grown, after, x, y, dir)
    &&& new_exits == grown.remove(r)
}

/// Whether one more feature was built: beside some tile of some exit that was
/// remembered, which is forgotten for it.
pub open spec fn feature_built(
    rooms: Seq<Rect>,
    exits: Seq<Rect>,
    before: Dungeon,
    new_rooms: Seq<Rect>,
    new_exits: Seq<Rect>,
    after: Dungeon,
) -> bool {
    exists|r: int, x: i64, y: i64, dir: Direction, grown: Seq<Rect>| #[trigger]
        feature_tried(rooms, exits, before, new_rooms, new_exits, after, r, x, y, dir, grown)
}

/// The generator of levels of rooms and corridors. It remembers the rooms
/// that can still take an object and the sides on which it can still build.
pub struct DefaultGenerator {
    rooms: Vec<Rect>,
    exits: Vec<Rect>,
}

impl DefaultGenerator {
    /// The rooms that can still take an object.
    pub closed spec fn rooms(&self) -> Seq<Rect> {
        self.rooms@
    }

    /// The sides of rooms and corridors on which a feature can still be built.
    pub closed spec fn exits(&self) -> Seq<Rect> {
        self.exits@
    }

    /// Whether every room and exit that the generator remembers lies on a `w`
    /// by `h` level.
    pub open spec fn fits(&self, w: int, h: int) -> bool {
        &&& forall|i: int| 0 <= i < self.rooms().len() ==> room_fits(#[trigger] self.rooms()[i], w, h)
        &&& forall|i: int| 0 <= i < self.exits().len() ==> exit_fits(#[trigger] self.exits()[i], w, h)
    }

    /// Whether the generator can work on the level `d`.
    pub open spec fn suits(&self, d: Dungeon) -> bool {
        &&& d.wf()
        &&& d.width() <= COORDINATE_LIMIT
        &&& d.height() <= COORDINATE_LIMIT
        &&& self.fits(d.width(), d.height())
    }

    /// A generator that remembers nothing.
    pub fn new() -> (g: Self)
        ensures
            g.rooms() == Seq::<Rect>::empty(),
            g.exits() == Seq::<Rect>::empty(),
    {
        Self { rooms: Vec::new(), exits: Vec::new() }
    }

    /// Lays `rect` on the level if it is free there: `tile` on its tiles and
    /// wall on the ring around it. Where it is not free, nothing changes.
    pub fn place_rect(&self, rect: Rect, tile: Tile, dungeon: &mut Dungeon) -> (ok: bool)
        requires
            old(dungeon).wf(),
            rect.bounded(),
        ensures
            final(dungeon).wf(),
            ok == rect_free(*old(dungeon), rect),
            ok ==> laid(*old(dungeon), *final(dungeon), rect, tile, None),
            !ok ==> *final(dungeon) == *old(dungeon),
    {
        if rect.x < 1 || rect.y < 1 || rect.x + rect.width > dungeon.columns() - 1 || rect.y
            + rect.height > dungeon.rows() - 1 {
            return false;
        }
        let mut y = rect.y;
        while y < rect.y + rect.height
            invariant
                *dungeon == *old(dungeon),
                dungeon.wf(),
                rect.bounded(),
                rect.x >= 1,
                rect.y >= 1,
                rect.x + rect.width <= dungeon.width() - 1,
                rect.y + rect.height <= dungeon.height() - 1,
                rect.y <= y,
                forall|a: int, b: int|
                    rect.holds(a, b) && b < y ==> #[trigger] dungeon.tile_at(a, b) == Tile::Unused,
            decreases rect.y + rect.height - y,
        {
            let mut x = rect.x;
            while x < rect.x + rect.width
                invariant
                    *dungeon == *old(dungeon),
                    dungeon.wf(),
                    rect.bounded(),
                    rect.x >= 1,
                    rect.y >= 1,
                    rect.x + rect.width <= dungeon.width() - 1,
                    rect.y + rect.height <= dungeon.height() - 1,
                    rect.y <= y < rect.y + rect.height,
                    rect.x <= x,
                    forall|a: int, b: int|
                        rect.holds(a, b) && (b < y || (b == y && a < x))
                            ==> #[trigger] dungeon.tile_at(a, b) == Tile::Unused,
                decreases rect.x + rect.width - x,
            {
                if dungeon.get(x, y, Tile::Unused) != Tile::Unused {
                    assert(rect.holds(x as int, y as int));
                    return false;
                }
                x = x + 1;
            }
            y = y + 1;
        }
        let mut y = rect.y - 1;
        while y < rect.y + rect.height + 1
            invariant
                dungeon.wf(),
                rect.bounded(),
                rect.x >= 1,
                rect.y >= 1,
                rect.x + rect.width <= dungeon.width() - 1,
                rect.y + rect.height <= dungeon.height() - 1,
                rect.y - 1 <= y <= rect.y + rect.height + 1,
                dungeon.width() == old(dungeon).width(),
                dungeon.height() == old(dungeon).height(),
                dungeon.tiles().len() == old(dungeon).tiles().len(),
                forall|a: int, b: int|
                    old(dungeon).inside(a, b) ==> #[trigger] dungeon.tile_at(a, b) == (if rect.walled(
                        a,
                        b,
                    ) && b < y {
                        if rect.holds(a, b) {
                            tile
                        } else {
                            Tile::Wall
                        }
                    } else {
                        old(dungeon).tile_at(a, b)
                    }),
                forall|i: int|
                    dungeon.width() * dungeon.height() <= i < dungeon.tiles().len()
                        ==> #[trigger] dungeon.tiles()[i] == old(dungeon).tiles()[i],
            decreases rect.y + rect.height + 1 - y,
        {
            let mut x = rect.x - 1;
            while x < rect.x + rect.width + 1
                invariant
                    dungeon.wf(),
                    rect.bounded(),
                    rect.x >= 1,
                    rect.y >= 1,
                    rect.x + rect.width <= dungeon.width() - 1,
                    rect.y + rect.height <= dungeon.height() - 1,
                    rect.y - 1 <= y < rect.y + rect.height + 1,
                    rect.x - 1 <= x <= rect.x + rect.width + 1,
                    dungeon.width() == old(dungeon).width(),
                    dungeon.height() == old(dungeon).height(),
                    dungeon.tiles().len() == old(dungeon).tiles().len(),
                    forall|a: int, b: int|
                        old(dungeon).inside(a, b) ==> #[trigger] dungeon.tile_at(a, b) == (
                        if rect.walled(a, b) && (b < y || (b == y && a < x)) {
                            if rect.holds(a, b) {
                                tile
                            } else {
                                Tile::Wall
                            }
                        } else {
                            old(dungeon).tile_at(a, b)
                        }),
                    forall|i: int|
                        dungeon.width() * dungeon.height() <= i < dungeon.tiles().len()
                            ==> #[trigger] dungeon.tiles()[i] == old(dungeon).tiles()[i],
                decreases rect.x + rect.width + 1 - x,
            {
                proof {
                    lemma_index_bound(dungeon.width(), dungeon.height(), x as int, y as int);
                }
                if x == rect.x - 1 || y == rect.y - 1 || x == rect.x + rect.width || y == rect.y
                    + rect.height {
                    dungeon.index_mut(x, y, Tile::Wall);
                } else {
                    dungeon.index_mut(x, y, tile);
                }
                x = x + 1;
            }
            y = y + 1;
        }
        true
    }

    /// A room of random size on the `dir` side of the tile `anchor`: first the
    /// width, then the height is drawn, each from 3 to 6.
    pub fn random_room(&self, rng: &mut GameRng, anchor: (i64, i64), dir: Direction) -> (room: Rect)
        requires
            -COORDINATE_LIMIT <= anchor.0 <= COORDINATE_LIMIT,
            -COORDINATE_LIMIT <= anchor.1 <= COORDINATE_LIMIT,
        ensures
            MIN_ROOM_SIZE <= room.width <= MAX_ROOM_SIZE,
            MIN_ROOM_SIZE <= room.height <= MAX_ROOM_SIZE,
            room == room_rect(anchor.0, anchor.1, dir, room.width, room.height),
    {
        let width = gen_range_inclusive(rng, MIN_ROOM_SIZE, MAX_ROOM_SIZE);
        let height = gen_range_inclusive(rng, MIN_ROOM_SIZE, MAX_ROOM_SIZE);
        room_at(anchor.0, anchor.1, dir, width, height)
    }

    /// A corridor of random length on the `dir` side of the tile `anchor`. A
    /// coin decides whether it is horizontal, its length is drawn from 3 to
    /// 6, and, where it runs along the side it is built on, a second coin
    /// decides which way it lies.
    pub fn random_corridor(&self, rng: &mut GameRng, anchor: (i64, i64), dir: Direction) -> (corridor:
        Rect)
        requires
            -COORDINATE_LIMIT <= anchor.0 <= COORDINATE_LIMIT,
            -COORDINATE_LIMIT <= anchor.1 <= COORDINATE_LIMIT,
        ensures
            exists|horizontal: bool, length: i64, flip: bool|
                MIN_CORRIDOR_LENGTH <= length <= MAX_CORRIDOR_LENGTH && corridor == #[trigger] corridor_rect(
                    anchor.0,
                    anchor.1,
                    dir,
                    horizontal,
                    length,
                    flip,
                ),
    {
        let horizontal = gen_coin(rng);
        let length = gen_range_inclusive(rng, MIN_CORRIDOR_LENGTH, MAX_CORRIDOR_LENGTH);
        let along = if horizontal {
            dir == Direction::North || dir == Direction::South
        } else {
            dir == Direction::West || dir == Direction::East
        };
        let flip = if along {
            gen_coin(rng)
        } else {
            false
        };
        corridor_at(anchor.0, anchor.1, dir, horizontal, length, flip)
    }

    /// Remembers `sides` as exits, in order.
    fn add_exits(&mut self, sides: &Vec<Rect>)
        ensures
            final(self).rooms() == old(self).rooms(),
            final(self).exits() == old(self).exits() + sides@,
            forall|w: int, h: int|
                old(self).fits(w, h) && (forall|i: int|
                    0 <= i < sides@.len() ==> exit_fits(#[trigger] sides@[i], w, h))
                    ==> #[trigger] final(self).fits(w, h),
    {
        let mut i: usize = 0;
        while i < sides.len()
            invariant
                i <= sides.len(),
                self.rooms() == old(self).rooms(),
                self.exits() == old(self).exits() + sides@.subrange(0, i as int),
            decreases sides.len() - i,
        {
            self.exits.push(sides[i]);
            assert(self.exits() =~= old(self).exits() + sides@.subrange(0, i + 1));
            i = i + 1;
        }
        assert(sides@.subrange(0, sides.len() as int) =~= sides@);
    }

    /// Builds a room of random size on the `dir` side of the tile `(x, y)`,
    /// if it is free there: the room is laid on the level as floor, and is
    /// remembered with its exits. Where it is not free, nothing changes.
    pub fn make_room(
        &mut self,
        rng: &mut GameRng,
        x: i64,
        y: i64,
        dir: Direction,
        first_room: bool,
        dungeon: &mut Dungeon,
    ) -> (ok: bool)
        requires
            old(self).suits(*old(dungeon)),
            -COORDINATE_LIMIT <= x <= COORDINATE_LIMIT,
            -COORDINATE_LIMIT <= y <= COORDINATE_LIMIT,
        ensures
            final(self).suits(*final(dungeon)),
            ok ==> {
                let room = final(self).rooms().last();
                &&& final(self).rooms() == old(self).rooms().push(room)
                &&& MIN_ROOM_SIZE <= room.width <= MAX_ROOM_SIZE
                &&& MIN_ROOM_SIZE <= room.height <= MAX_ROOM_SIZE
                &&& room == room_rect(x, y, dir, room.width, room.height)
                &&& rect_free(*old(dungeon), room)
                &&& laid(*old(dungeon), *final(dungeon), room, Tile::Floor, None)
                &&& final(self).exits() == old(self).exits() + room_exits(room, dir, first_room)
            },
            !ok ==> *final(dungeon) == *old(dungeon) && final(self).rooms() == old(self).rooms()
                && final(self).exits() == old(self).exits(),
            old(dungeon).enclosed(-1) ==> final(dungeon).enclosed(-1) && keeps_walkable(
                *old(dungeon),
                *final(dungeon),
            ),
            every_room_free(*old(dungeon), x, y, dir) ==> ok,
    {
        let room = self.random_room(rng, (x, y), dir);
        if self.place_rect(room, Tile::Floor, dungeon) {
            self.rooms.push(room);
            proof {
                if old(dungeon).enclosed(-1) {
                    lemma_laid_enclosed(*old(dungeon), *dungeon, room, Tile::Floor, None);
                    lemma_laid_keeps_walkable(*old(dungeon), *dungeon, room, Tile::Floor, None);
                }
                let w = dungeon.width();
                let h = dungeon.height();
                assert forall|i: int| 0 <= i < self.rooms().len() implies room_fits(
                    #[trigger] self.rooms()[i],
                    w,
                    h,
                ) by {
                    if i < old(self).rooms().len() {
                        assert(self.rooms()[i] == old(self).rooms()[i]);
                    }
                }
                assert(self.exits() == old(self).exits());
                assert(w == old(dungeon).width() && h == old(dungeon).height());
                assert(old(self).fits(w, h));
                assert(self.fits(w, h));
            }
            let mut sides: Vec<Rect> = Vec::new();
            if dir != Direction::South || first_room {
                sides.push(Rect { x: room.x, y: room.y - 1, width: room.width, height: 1 });
            }
            if dir != Direction::North || first_room {
                sides.push(
                    Rect { x: room.x, y: room.y + room.height, width: room.width, height: 1 },
                );
            }
            if dir != Direction::East || first_room {
                sides.push(Rect { x: room.x - 1, y: room.y, width: 1, height: room.height });
            }
            if dir != Direction::West || first_room {
                sides.push(
                    Rect { x: room.x + room.width, y: room.y, width: 1, height: room.height },
                );
            }
            assert(sides@ =~= room_exits(room, dir, first_room));
            self.add_exits(&sides);
            true
        } else {
            false
        }
    }

    /// Builds a corridor of random length on the `dir` side of the tile
    /// `(x, y)`, if it is free there: the corridor is laid on the level, and
    /// its exits are remembered. Where it is not free, nothing changes. One
    /// is built for sure where every corridor that can be drawn is free.
    pub fn make_corridor(
        &mut self,
        rng: &mut GameRng,
        x: i64,
        y: i64,
        dir: Direction,
        dungeon: &mut Dungeon,
    ) -> (ok: bool)
        requires
            old(self).suits(*old(dungeon)),
            -COORDINATE_LIMIT <= x <= COORDINATE_LIMIT,
            -COORDINATE_LIMIT <= y <= COORDINATE_LIMIT,
        ensures
            final(self).suits(*final(dungeon)),
            final(self).rooms() == old(self).rooms(),
            ok ==> exists|horizontal: bool, length: i64, flip: bool|
                {
                    let c = #[trigger] corridor_rect(x, y, dir, horizontal, length, flip);
                    &&& MIN_CORRIDOR_LENGTH <= length <= MAX_CORRIDOR_LENGTH
                    &&& rect_free(*old(dungeon), c)
                    &&& laid(*old(dungeon), *final(dungeon), c, Tile::Corridor, None)
                    &&& final(self).exits() == old(self).exits() + corridor_exits(c, dir)
                },
            !ok ==> *final(dungeon) == *old(dungeon) && final(self).exits() == old(self).exits(),
            old(dungeon).enclosed(-1) ==> final(dungeon).enclosed(-1) && keeps_walkable(
                *old(dungeon),
                *final(dungeon),
            ),
            every_corridor_free(*old(dungeon), x, y, dir) ==> ok,
    {
        let corridor = self.random_corridor(rng, (x, y), dir);
        if self.place_rect(corridor, Tile::Corridor, dungeon) {
            proof {
                if old(dungeon).enclosed(-1) {
                    lemma_laid_enclosed(*old(dungeon), *dungeon, corridor, Tile::Corridor, None);
                    lemma_laid_keeps_walkable(
                        *old(dungeon),
                        *dungeon,
                        corridor,
                        Tile::Corridor,
                        None,
                    );
                }
            }
            let mut sides: Vec<Rect> = Vec::new();
            if dir != Direction::South && corridor.width != 1 {
                sides.push(
                    Rect { x: corridor.x, y: corridor.y - 1, width: corridor.width, height: 1 },
                );
            }
            if dir != Direction::North && corridor.width != 1 {
                sides.push(
                    Rect {
                        x: corridor.x,
                        y: corridor.y + corridor.height,
                        width: corridor.width,
                        height: 1,
                    },
                );
            }
            if dir != Direction::East && corridor.height != 1 {
                sides.push(
                    Rect { x: corridor.x - 1, y: corridor.y, width: 1, height: corridor.height },
                );
            }
            if dir != Direction::West && corridor.height != 1 {
                sides.push(
                    Rect {
                        x: corridor.x + corridor.width,
                        y: corridor.y,
                        width: 1,
                        height: corridor.height,
                    },
                );
            }
            assert(sides@ =~= corridor_exits(corridor, dir));
            self.add_exits(&sides);
            true
        } else {
            false
        }
    }

    /// Whether the exits that `old` remembers are still the first exits of
    /// this generator, in their places.
    pub open spec fn extends(&self, old: &Self) -> bool {
        &&& old.exits().len() <= self.exits().len()
        &&& forall|i: int| 0 <= i < old.exits().len() ==> self.exits()[i] == old.exits()[i]
    }

    /// Builds a room or a corridor on the `dir` side of the tile `(x, y)`.
    ///
    /// Nothing is built unless the tile on the other side of `(x, y)` is floor
    /// or corridor. A draw from 0 to 99 then decides: below 50 a room, else a
    /// corridor. Where the feature is free, it is laid on the level, and
    /// `(x, y)` becomes its door: a closed door, or a piece of corridor where
    /// corridor meets corridor: see `featured`. Where it is not free, nothing
    /// changes. A feature is built for sure where `sure_at` holds.
    #[verifier::rlimit(60)]
    pub fn create_feature_at(
        &mut self,
        rng: &mut GameRng,
        x: i64,
        y: i64,
        dir: Direction,
        dungeon: &mut Dungeon,
    ) -> (ok: bool)
        requires
            old(self).suits(*old(dungeon)),
            old(dungeon).inside(x as int, y as int),
        ensures
            final(self).suits(*final(dungeon)),
            final(self).extends(old(self)),
            ok ==> featured(
                old(self).rooms(),
                old(self).exits(),
                *old(dungeon),
                final(self).rooms(),
                final(self).exits(),
                *final(dungeon),
                x,
                y,
                dir,
            ),
            !ok ==> *final(dungeon) == *old(dungeon) && final(self).rooms() == old(self).rooms()
                && final(self).exits() == old(self).exits(),
            sure_at(*old(dungeon), x, y, dir) ==> ok,
            old(dungeon).enclosed(-1) ==> final(dungeon).enclosed(-1) && keeps_walkable(
                *old(dungeon),
                *final(dungeon),
            ),
    {
        let dx: i64 = match dir {
            Direction::North => 0,
            Direction::South => 0,
            Direction::West => 1,
            Direction::East => -1,
        };
        let dy: i64 = match dir {
            Direction::North => 1,
            Direction::South => -1,
            Direction::West => 0,
            Direction::East => 0,
        };
        let candidate = dungeon.get(x + dx, y + dy, Tile::Unused);
        assert(behind(x as int, y as int, dir) == (x + dx, y + dy));
        if candidate != Tile::Floor && candidate != Tile::Corridor {
            return false;
        }
        proof {
            lemma_index_bound(dungeon.width(), dungeon.height(), x as int, y as int);
            assert(dungeon.inside(x + dx, y + dy));
            assert(dungeon.tile_at(x + dx, y + dy).walkable());
            assert(behind(x as int, y as int, dir) == (x + dx, y + dy));
        }
        let room_chance: i64 = 50;
        if gen_range_inclusive(rng, 0, 99) < room_chance {
            if self.make_room(rng, x, y, dir, false, dungeon) {
                let ghost room = self.rooms().last();
                dungeon.index_mut(x, y, Tile::ClosedDoor);
                proof {
                    assert(laid(
                        *old(dungeon),
                        *dungeon,
                        room,
                        Tile::Floor,
                        Some((x as int, y as int, Tile::ClosedDoor)),
                    ));
                    assert(room_featured(
                        old(self).rooms(),
                        old(self).exits(),
                        *old(dungeon),
                        self.rooms(),
                        self.exits(),
                        *dungeon,
                        x,
                        y,
                        dir,
                        room.width,
                        room.height,
                    ));
                    if old(dungeon).enclosed(-1) {
                        assert(old(dungeon).enclosed_at(x + dx, y + dy));
                        lemma_room_door_fits(*old(dungeon), x, y, dir, room.width, room.height);
                        lemma_room_ahead(x, y, dir, room.width, room.height);
                        lemma_door_on_wall(*old(dungeon), room, x as int, y as int, dir);
                        lemma_laid_enclosed(
                            *old(dungeon),
                            *dungeon,
                            room,
                            Tile::Floor,
                            Some((x as int, y as int, Tile::ClosedDoor)),
                        );
                        lemma_laid_keeps_walkable(
                            *old(dungeon),
                            *dungeon,
                            room,
                            Tile::Floor,
                            Some((x as int, y as int, Tile::ClosedDoor)),
                        );
                    }
                }
                return true;
            }
        } else {
            let ghost before = *self;
            if self.make_corridor(rng, x, y, dir, dungeon) {
                let door = if candidate == Tile::Floor {
                    Tile::ClosedDoor
                } else {
                    Tile::Corridor
                };
                let ghost mid = *dungeon;
                dungeon.index_mut(x, y, door);
                proof {
                    let (horizontal, length, flip) = choose|
                        horizontal: bool,
                        length: i64,
                        flip: bool,
                    |
                        {
                            let c = #[trigger] corridor_rect(x, y, dir, horizontal, length, flip);
                            &&& MIN_CORRIDOR_LENGTH <= length <= MAX_CORRIDOR_LENGTH
                            &&& rect_free(*old(dungeon), c)
                            &&& laid(*old(dungeon), mid, c, Tile::Corridor, None)
                            &&& self.exits() == before.exits() + corridor_exits(c, dir)
                        };
                    let c = corridor_rect(x, y, dir, horizontal, length, flip);
                    assert(laid(
                        *old(dungeon),
                        *dungeon,
                        c,
                        Tile::Corridor,
                        Some((x as int, y as int, door)),
                    ));
                    assert(door == corridor_door(*old(dungeon), x as int, y as int, dir));
                    assert(corridor_featured(
                        old(self).rooms(),
                        old(self).exits(),
                        *old(dungeon),
                        self.rooms(),
                        self.exits(),
                        *dungeon,
                        x,
                        y,
                        dir,
                        horizontal,
                        length,
                        flip,
                    ));
                    if old(dungeon).enclosed(-1) {
                        assert(old(dungeon).enclosed_at(x + dx, y + dy));
                        lemma_corridor_door_fits(
                            *old(dungeon),
                            x,
                            y,
                            dir,
                            horizontal,
                            length,
                            flip,
                        );
                        lemma_corridor_ahead(x, y, dir, horizontal, length, flip);
                        lemma_door_on_wall(*old(dungeon), c, x as int, y as int, dir);
                        lemma_laid_enclosed(
                            *old(dungeon),
                            *dungeon,
                            c,
                            Tile::Corridor,
                            Some((x as int, y as int, door)),
                        );
                        lemma_laid_keeps_walkable(
                            *old(dungeon),
                            *dungeon,
                            c,
                            Tile::Corridor,
                            Some((x as int, y as int, door)),
                        );
                    }
                }
                return true;
            }
        }
        false
    }

    /// Builds one more feature: up to 1000 times, an exit is drawn, then a
    /// tile of it, and a feature is tried on each side of the tile, the sides
    /// taken in a shuffled order. The exit of the first feature that can be
    /// built is forgotten: see `feature_built`. Where none can be built,
    /// nothing changes. A feature is built for sure where `feature_sure`
    /// holds, and none where no exit is left.
    pub fn create_feature(&mut self, rng: &mut GameRng, dungeon: &mut Dungeon) -> (ok: bool)
        requires
            old(self).suits(*old(dungeon)),
        ensures
            final(self).suits(*final(dungeon)),
            ok ==> feature_built(
                old(self).rooms(),
                old(self).exits(),
                *old(dungeon),
                final(self).rooms(),
                final(self).exits(),
                *final(dungeon),
            ),
            !ok ==> *final(dungeon) == *old(dungeon) && final(self).rooms() == old(self).rooms()
                && final(self).exits() == old(self).exits(),
            old(dungeon).enclosed(-1) ==> final(dungeon).enclosed(-1) && keeps_walkable(
                *old(dungeon),
                *final(dungeon),
            ),
            feature_sure(*old(dungeon), old(self).exits()) ==> ok,
    {
        let mut tries: u32 = 0;
        while tries < 1000 && self.exits.len() > 0
            invariant
                self.suits(*dungeon),
                *dungeon == *old(dungeon),
                self.rooms() == old(self).rooms(),
                self.exits() == old(self).exits(),
                tries > 0 ==> !feature_sure(*old(dungeon), old(self).exits()),
            decreases 1000 - tries,
        {
            let r = random_index(rng, self.exits.len());
            let exit = self.exits[r];
            assert(exit_fits(self.exits()[r as int], dungeon.width(), dungeon.height()));
            let x = gen_range_inclusive(rng, exit.x, exit.x + exit.width - 1);
            let y = gen_range_inclusive(rng, exit.y, exit.y + exit.height - 1);
            assert(self.exits()[r as int].holds(x as int, y as int));
            let directions = shuffled_directions(rng);
            let mut k: usize = 0;
            while k < directions.len()
                invariant
                    self.suits(*dungeon),
                    *dungeon == *old(dungeon),
                    self.rooms() == old(self).rooms(),
                    self.exits() == old(self).exits(),
                    dungeon.inside(x as int, y as int),
                    r < self.exits().len(),
                    self.exits()[r as int].holds(x as int, y as int),
                    k <= directions.len(),
                    forall|dir: Direction| directions@.contains(dir),
                    forall|j: int| 0 <= j < k ==> !sure_at(*dungeon, x, y, #[trigger] directions@[j]),
                decreases directions.len() - k,
            {
                if self.create_feature_at(rng, x, y, directions[k], dungeon) {
                    let ghost built = *self;
                    self.exits.remove(r);
                    proof {
                        let w = dungeon.width();
                        let h = dungeon.height();
                        assert(self.rooms() == built.rooms());
                        assert forall|i: int| 0 <= i < self.exits().len() implies exit_fits(
                            #[trigger] self.exits()[i],
                            w,
                            h,
                        ) by {
                            let j = if i < r {
                                i
                            } else {
                                i + 1
                            };
                            assert(self.exits()[i] == built.exits()[j]);
                        }
                        assert(feature_tried(
                            old(self).rooms(),
                            old(self).exits(),
                            *old(dungeon),
                            self.rooms(),
                            self.exits(),
                            *dungeon,
                            r as int,
                            x,
                            y,
                            directions@[k as int],
                            built.exits(),
                        ));
                    }
                    return true;
                }
                k = k + 1;
            }
            proof {
                assert forall|dir: Direction| !sure_at(*dungeon, x, y, dir) by {
                    assert(directions@.contains(dir));
                    let j = directions@.index_of(dir);
                    assert(directions@[j] == dir);
                }
                assert(!sure_beside(*dungeon, x, y));
            }
            tries = tries + 1;
        }
        false
    }

    /// Puts the object `tile` into a room drawn at random, on a tile drawn
    /// from those that do not touch its walls. Where that tile is floor, it
    /// takes the object and the room is forgotten, so that it gets no second
    /// one. Where it is not, or where no room is left, nothing changes. The
    /// object is put for sure where a room is left and every tile that can
    /// be drawn is floor.
    pub fn place_object(&mut self, rng: &mut GameRng, tile: Tile, dungeon: &mut Dungeon) -> (ok:
        bool)
        requires
            old(self).suits(*old(dungeon)),
        ensures
            final(self).suits(*final(dungeon)),
            final(self).exits() == old(self).exits(),
            final(dungeon).width() == old(dungeon).width(),
            final(dungeon).height() == old(dungeon).height(),
            final(dungeon).tiles().len() == old(dungeon).tiles().len(),
            ok ==> exists|r: int, x: int, y: int|
                {
                    &&& 0 <= r < old(self).rooms().len()
                    &&& #[trigger] well_inside(old(self).rooms()[r], x, y)
                    &&& old(dungeon).tile_at(x, y) == Tile::Floor
                    &&& final(dungeon).tiles() == old(dungeon).tiles().update(
                        x + y * old(dungeon).width(),
                        tile,
                    )
                    &&& final(self).rooms() == old(self).rooms().remove(r)
                },
            !ok ==> *final(dungeon) == *old(dungeon) && final(self).rooms() == old(self).rooms(),
            old(dungeon).enclosed(-1) && tile != Tile::Unused ==> final(dungeon).enclosed(-1),
            tile.walkable() ==> keeps_walkable(*old(dungeon), *final(dungeon)),
            old(self).rooms().len() > 0 && every_room_clear(*old(dungeon), old(self).rooms())
                ==> ok,
    {
        if self.rooms.len() == 0 {
            return false;
        }
        let r = random_index(rng, self.rooms.len());
        let room = self.rooms[r];
        assert(room_fits(self.rooms()[r as int], dungeon.width(), dungeon.height()));
        let x = gen_range_inclusive(rng, room.x + 1, room.x + room.width - 2);
        let y = gen_range_inclusive(rng, room.y + 1, room.y + room.height - 2);
        proof {
            lemma_index_bound(dungeon.width(), dungeon.height(), x as int, y as int);
            assert(well_inside(self.rooms()[r as int], x as int, y as int));
        }
        if dungeon.index(x, y) == Tile::Floor {
            dungeon.index_mut(x, y, tile);
            self.rooms.remove(r);
            proof {
                let w = dungeon.width();
                let h = dungeon.height();
                assert(self.exits() == old(self).exits());
                assert forall|i: int| 0 <= i < self.rooms().len() implies room_fits(
                    #[trigger] self.rooms()[i],
                    w,
                    h,
                ) by {
                    let j = if i < r {
                        i
                    } else {
                        i + 1
                    };
                    assert(self.rooms()[i] == old(self).rooms()[j]);
                }
                assert(well_inside(old(self).rooms()[r as int], x as int, y as int));
                if old(dungeon).enclosed(-1) && tile != Tile::Unused {
                    lemma_replaced_enclosed(*old(dungeon), *dungeon, x as int, y as int, tile);
                }
                if tile.walkable() {
                    lemma_replaced_keeps_walkable(
                        *old(dungeon),
                        *dungeon,
                        x + y * old(dungeon).width(),
                        tile,
                    );
                }
            }
            true
        } else {
            false
        }
    }

    /// Fills the level: a first room in its middle, then up to `max_features`
    /// features in all, then the up staircase and the down staircase, each in
    /// a room of its own. It stops at the first step that cannot be done.
    ///
    /// Whatever is drawn, an enclosed level stays enclosed and loses nothing
    /// that can be walked on, and a level that was untouched and is roomy
    /// enough has a room in its middle.
    pub fn populate(&mut self, rng: &mut GameRng, dungeon: &mut Dungeon, max_features: i32)
        requires
            old(self).suits(*old(dungeon)),
        ensures
            final(self).suits(*final(dungeon)),
            final(dungeon).width() == old(dungeon).width(),
            final(dungeon).height() == old(dungeon).height(),
            final(dungeon).tiles().len() == old(dungeon).tiles().len(),
            old(dungeon).enclosed(-1) ==> final(dungeon).enclosed(-1) && keeps_walkable(
                *old(dungeon),
                *final(dungeon),
            ),
            untouched(*old(dungeon)) && old(dungeon).width() >= ROOMY_WIDTH && old(dungeon).height()
                >= ROOMY_HEIGHT ==> has_middle_room(*final(dungeon)),
    {
        proof {
            if untouched(*dungeon) && dungeon.width() >= ROOMY_WIDTH && dungeon.height()
                >= ROOMY_HEIGHT {
                assert forall|w: i64, h: i64|
                    MIN_ROOM_SIZE <= w <= MAX_ROOM_SIZE && MIN_ROOM_SIZE <= h
                        <= MAX_ROOM_SIZE implies rect_free(
                    *dungeon,
                    #[trigger] room_rect(
                        (dungeon.width() / 2) as i64,
                        (dungeon.height() / 2) as i64,
                        Direction::North,
                        w,
                        h,
                    ),
                ) by {}
            }
            if untouched(*dungeon) {
                assert(dungeon.enclosed(-1));
            }
        }
        if !self.make_room(
            rng,
            dungeon.columns() / 2,
            dungeon.rows() / 2,
            Direction::North,
            true,
            dungeon,
        ) {
            return ;
        }
        let ghost first = *dungeon;
        let ghost room = self.rooms().last();
        proof {
            if old(dungeon).enclosed(-1) {
                assert(room_built(first, room));
            }
        }
        let mut i: i32 = 1;
        while i < max_features
            invariant
                self.suits(*dungeon),
                dungeon.width() == old(dungeon).width(),
                dungeon.height() == old(dungeon).height(),
                dungeon.tiles().len() == old(dungeon).tiles().len(),
                old(dungeon).enclosed(-1) ==> dungeon.enclosed(-1) && keeps_walkable(
                    *old(dungeon),
                    *dungeon,
                ) && room_built(*dungeon, room),
            decreases max_features - i,
        {
            let ghost before = *dungeon;
            if !self.create_feature(rng, dungeon) {
                break ;
            }
            proof {
                if old(dungeon).enclosed(-1) {
                    lemma_keeps_room(before, *dungeon, room);
                    lemma_keeps_walkable_twice(*old(dungeon), before, *dungeon);
                }
            }
            i = i + 1;
        }
        let ghost before = *dungeon;
        let up = self.place_object(rng, Tile::UpStairs, dungeon);
        proof {
            if old(dungeon).enclosed(-1) {
                lemma_keeps_room(before, *dungeon, room);
                lemma_keeps_walkable_twice(*old(dungeon), before, *dungeon);
            }
        }
        if !up {
            return ;
        }
        let ghost before = *dungeon;
        let down = self.place_object(rng, Tile::DownStairs, dungeon);
        proof {
            if old(dungeon).enclosed(-1) {
                lemma_keeps_room(before, *dungeon, room);
                lemma_keeps_walkable_twice(*old(dungeon), before, *dungeon);
            }
        }
        if !down {
            return ;
        }
    }
}

impl Generator for DefaultGenerator {
    /// The generator can lay out a level on which everything that it
    /// remembers lies: any level, for a generator that remembers nothing.
    open spec fn ready(&self, width: i64, height: i64) -> bool {
        width <= COORDINATE_LIMIT && height <= COORDINATE_LIMIT && self.fits(width - 1, height - 1)
    }

    /// A level of rooms and corridors: see `populate`, with up to 50
    /// features. Whatever is drawn, nothing that can be walked on touches the
    /// void or the border of the level, but for the up staircase on column 1
    /// of row 1, which is put there last; and a level of more than
    /// `ROOMY_WIDTH` by `ROOMY_HEIGHT` tiles has a room in its middle. The
    /// generator is ready for another level of the same size.
    fn generate(&mut self, rng: &mut GameRng, width: i64, height: i64) -> (d: Dungeon)
        ensures
            final(self).ready(width, height),
            width > ROOMY_WIDTH && height > ROOMY_HEIGHT ==> has_middle_room(d),
    {
        proof {
            lemma_level_in_list(width as int, height as int);
        }
        let mut dungeon = Dungeon::new(width - 1, height - 1, (width * height) as usize);
        proof {
            assert forall|x: int, y: int| dungeon.inside(x, y) implies #[trigger] dungeon.tile_at(
                x,
                y,
            ) == Tile::Unused by {
                lemma_index_bound(dungeon.width(), dungeon.height(), x, y);
            }
            assert(untouched(dungeon));
        }
        let max_features: i32 = 50;
        self.populate(rng, &mut dungeon, max_features);
        let ghost filled = dungeon;
        dungeon.put(width as usize, Tile::UpStairs);
        proof {
            lemma_stairs_enclosed(filled, dungeon, width as int);
            lemma_replaced_keeps_walkable(filled, dungeon, width as int, Tile::UpStairs);
            if width > ROOMY_WIDTH && height > ROOMY_HEIGHT {
                assert(has_middle_room(filled));
                let (w, h) = choose|w: i64, h: i64|
                    MIN_ROOM_SIZE <= w <= MAX_ROOM_SIZE && MIN_ROOM_SIZE <= h <= MAX_ROOM_SIZE
                        && room_built(
                        filled,
                        #[trigger] room_rect(
                            (filled.width() / 2) as i64,
                            (filled.height() / 2) as i64,
                            Direction::North,
                            w,
                            h,
                        ),
                    );
                lemma_keeps_room(
                    filled,
                    dungeon,
                    room_rect(
                        (filled.width() / 2) as i64,
                        (filled.height() / 2) as i64,
                        Direction::North,
                        w,
                        h,
                    ),
                );
            }
        }
        dungeon
    }
}

} // verus!
