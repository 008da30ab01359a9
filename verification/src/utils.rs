//! Grid coordinates and the four movement directions.

use crate::configs::GRID_SIZE;
use crate::rng::random_range;
use vstd::prelude::*;

verus! {

/// An integer grid coordinate.
#[derive(PartialEq, Eq, Hash, Clone, Copy, Debug, Structural)]
pub struct Point {
    pub x: i32,
    pub y: i32,
}

/// One of the four axis-aligned movement directions.
#[derive(Debug, Clone, Copy, PartialEq, Eq, Structural)]
pub enum FourDirs {
    Left,
    Right,
    Bottom,
    Top,
}

/// The eight ray directions: the four axis-aligned ones in the order
/// left, right, bottom, top, then the four diagonals.
pub open spec fn eight_dirs() -> Seq<(i32, i32)> {
    seq![
        (-1i32, 0i32),
        (1i32, 0i32),
        (0i32, -1i32),
        (0i32, 1i32),
        (-1i32, 1i32),
        (1i32, 1i32),
        (1i32, -1i32),
        (-1i32, -1i32),
    ]
}

/// The eight ray directions as displacements.
pub fn get_eight_dirs() -> (dirs: [(i32, i32); 8])
    ensures
        dirs@ == eight_dirs(),
{
    let dirs = [
        FourDirs::Left.value(),
        FourDirs::Right.value(),
        FourDirs::Bottom.value(),
        FourDirs::Top.value(),
        (-1, 1),
        (1, 1),
        (1, -1),
        (-1, -1),
    ];
    assert(dirs@ =~= eight_dirs());
    dirs
}

impl FourDirs {
    /// The unit displacement of the direction.
    pub open spec fn delta(self) -> (int, int) {
        match self {
            FourDirs::Left => (-1, 0),
            FourDirs::Right => (1, 0),
            FourDirs::Top => (0, 1),
            FourDirs::Bottom => (0, -1),
        }
    }

    /// Position of the direction in the order left, right, bottom, top.
    pub open spec fn index(self) -> int {
        match self {
            FourDirs::Left => 0,
            FourDirs::Right => 1,
            FourDirs::Bottom => 2,
            FourDirs::Top => 3,
        }
    }

    /// The direction at a position of the order left, right, bottom, top;
    /// positions past the third give `Top`.
    pub open spec fn at(i: int) -> FourDirs {
        if i == 0 {
            FourDirs::Left
        } else if i == 1 {
            FourDirs::Right
        } else if i == 2 {
            FourDirs::Bottom
        } else {
            FourDirs::Top
        }
    }

    /// The direction that undoes this one.
    pub open spec fn opposite(self) -> FourDirs {
        match self {
            FourDirs::Left => FourDirs::Right,
            FourDirs::Right => FourDirs::Left,
            FourDirs::Top => FourDirs::Bottom,
            FourDirs::Bottom => FourDirs::Top,
        }
    }

    /// The one-hot encoding: a one at `index()`, zeros elsewhere.
    pub open spec fn one_hot(self) -> Seq<u8> {
        Seq::new(4, |i: int| if i == self.index() { 1u8 } else { 0u8 })
    }

    /// Draws one of the four directions.
    pub fn get_rand_dir() -> (dir: Self) {
        let k: i32 = random_range(0, 4);
        Self::from_index(k)
    }

    /// The direction numbered `k` in the order left, right, bottom, top.
    pub fn from_index(k: i32) -> (dir: Self)
        ensures
            dir == Self::at(k as int),
    {
        match k {
            0 => Self::Left,
            1 => Self::Right,
            2 => Self::Bottom,
            _ => Self::Top,
        }
    }

    /// The unit displacement of the direction.
    pub fn value(&self) -> (d: (i32, i32))
        ensures
            d.0 == self.delta().0,
            d.1 == self.delta().1,
    {
        match self {
            Self::Left => (-1, 0),
            Self::Right => (1, 0),
            Self::Top => (0, 1),
            Self::Bottom => (0, -1),
        }
    }

    /// The direction that undoes this one.
    pub fn reverse(&self) -> (r: Self)
        ensures
            r == self.opposite(),
    {
        match self {
            Self::Left => Self::Right,
            Self::Right => Self::Left,
            Self::Top => Self::Bottom,
            Self::Bottom => Self::Top,
        }
    }

    /// The one-hot encoding as four flags, each `0` or `1`.
    pub fn get_one_hot_dir(&self) -> (flags: Vec<u8>)
        ensures
            flags@ == self.one_hot(),
    {
        let flags = match self {
            FourDirs::Left => vec![1u8, 0u8, 0u8, 0u8],
            FourDirs::Right => vec![0u8, 1u8, 0u8, 0u8],
            FourDirs::Bottom => vec![0u8, 0u8, 1u8, 0u8],
            FourDirs::Top => vec![0u8, 0u8, 0u8, 1u8],
        };
        assert(flags@ =~= self.one_hot());
        flags
    }
}

impl Default for FourDirs {
    fn default() -> (dir: Self)
        ensures
            dir == FourDirs::Left,
    {
        FourDirs::Left
    }
}

impl Point {
    /// Whether both coordinates lie in `1..grid_size - 1`, where food is placed.
    pub open spec fn in_food_range(self, grid_size: int) -> bool {
        1 <= self.x < grid_size - 1 && 1 <= self.y < grid_size - 1
    }

    /// The point with the given coordinates.
    pub fn new(x: i32, y: i32) -> (p: Self)
        ensures
            p == (Point { x, y }),
    {
        Self { x, y }
    }

    /// Whether the two points have the same coordinates.
    pub fn equals(&self, other: Self) -> (same: bool)
        ensures
            same == (*self == other),
    {
        self.x == other.x && self.y == other.y
    }

    /// Draws a cell of the default grid for food.
    pub fn rand() -> (p: Self)
        ensures
            p.in_food_range(GRID_SIZE as int),
    {
        Self::rand_within(GRID_SIZE)
    }

    /// Draws a cell for food on a grid of side `grid_size`: each coordinate
    /// in `1..grid_size - 1`.
    pub fn rand_within(grid_size: i32) -> (p: Self)
        requires
            grid_size >= 3,
        ensures
            p.in_food_range(grid_size as int),
    {
        let x: i32 = random_range(1, grid_size - 1);
        let y: i32 = random_range(1, grid_size - 1);
        Self { x, y }
    }
}

impl From<(i32, i32)> for Point {
    fn from(val: (i32, i32)) -> (p: Self) {
        Point { x: val.0, y: val.1 }
    }
}

impl vstd::std_specs::convert::FromSpecImpl<(i32, i32)> for Point {
    open spec fn obeys_from_spec() -> bool {
        true
    }

    open spec fn from_spec(val: (i32, i32)) -> Point {
        Point { x: val.0, y: val.1 }
    }
}

impl From<Point> for (i32, i32) {
    fn from(point: Point) -> (pair: Self) {
        (point.x, point.y)
    }
}

impl vstd::std_specs::convert::FromSpecImpl<Point> for (i32, i32) {
    open spec fn obeys_from_spec() -> bool {
        true
    }

    open spec fn from_spec(point: Point) -> (i32, i32) {
        (point.x, point.y)
    }
}

impl Default for Point {
    fn default() -> (p: Self)
        ensures
            p == (Point { x: 0, y: 0 }),
    {
        Point { x: 0, y: 0 }
    }
}

} // verus!
