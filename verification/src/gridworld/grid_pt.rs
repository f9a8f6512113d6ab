use rand::rngs::StdRng;
use vstd::prelude::*;

use crate::gridworld::consts::GRID_WIDTH;
use crate::gridworld::direction::Direction;
use crate::rng::uniform_between;
use crate::trig::{arc_tangent, arc_tangent2};

verus! {

/// A tile of the grid, by column `x` and row `y`.
#[derive(PartialEq, Eq, Structural, Hash, Copy, Clone, Debug)]
pub struct GridPoint {
    pub x: u16,
    pub y: u16,
}

/// A coordinate brought into the grid: the grid is a torus, so a step over
/// one edge comes in at the opposite one.
pub open spec fn wrapped(coordinate: int) -> int {
    coordinate % (GRID_WIDTH as int)
}

/// The greater of the two coordinate differences.
pub open spec fn chessboard(a: GridPoint, b: GridPoint) -> int {
    let dx = if a.x >= b.x {
        a.x - b.x
    } else {
        b.x - a.x
    };
    let dy = if a.y >= b.y {
        a.y - b.y
    } else {
        b.y - a.y
    };
    if dx >= dy {
        dx
    } else {
        dy
    }
}

/// The point lies in the square of side `2 * max_range + 1` around `pos`, cut
/// off at the grid's edges.
pub open spec fn in_square(pos: GridPoint, max_range: u16, pt: GridPoint) -> bool {
    &&& pos.x - max_range <= pt.x <= pos.x + max_range
    &&& pos.y - max_range <= pt.y <= pos.y + max_range
    &&& pt.x < GRID_WIDTH
    &&& pt.y < GRID_WIDTH
}

/// The first column, or row, of the square around a point with the given
/// coordinate.
pub open spec fn range_first(coordinate: u16, max_range: u16) -> int {
    if coordinate > max_range {
        coordinate - max_range
    } else {
        0
    }
}

/// The column, or row, after the last of the square around a point with the
/// given coordinate.
pub open spec fn range_end(coordinate: u16, max_range: u16) -> int {
    if coordinate + max_range < GRID_WIDTH - 1 {
        coordinate + max_range + 1
    } else {
        GRID_WIDTH as int
    }
}

/// The points of column `x` in the rows from `first_y` up to, not including,
/// `end_y`, but for the point `pos` itself; by row.
pub open spec fn column_points(pos: GridPoint, x: int, first_y: int, end_y: int) -> Seq<GridPoint>
    decreases end_y - first_y,
{
    if end_y <= first_y {
        Seq::empty()
    } else {
        let before = column_points(pos, x, first_y, end_y - 1);
        if x != pos.x || end_y - 1 != pos.y {
            before.push(GridPoint { x: x as u16, y: (end_y - 1) as u16 })
        } else {
            before
        }
    }
}

/// The points of the columns from `first_x` up to, not including, `end_x`,
/// but for the point `pos` itself; column after column.
pub open spec fn block_points(
    pos: GridPoint,
    first_x: int,
    end_x: int,
    first_y: int,
    end_y: int,
) -> Seq<GridPoint>
    decreases end_x - first_x,
{
    if end_x <= first_x {
        Seq::empty()
    } else {
        block_points(pos, first_x, end_x - 1, first_y, end_y) + column_points(
            pos,
            end_x - 1,
            first_y,
            end_y,
        )
    }
}

/// The points that [`get_points_in_range`] gives, in its order.
pub open spec fn points_in_range(pos: GridPoint, max_range: u16) -> Seq<GridPoint> {
    block_points(
        pos,
        range_first(pos.x, max_range),
        range_end(pos.x, max_range),
        range_first(pos.y, max_range),
        range_end(pos.y, max_range),
    )
}

/// `a` comes before `b` where points are ordered by column, then by row.
pub open spec fn precedes(a: GridPoint, b: GridPoint) -> bool {
    a.x < b.x || (a.x == b.x && a.y < b.y)
}

impl GridPoint {
    /// The point is a tile of the grid.
    pub open spec fn in_grid(self) -> bool {
        self.x < GRID_WIDTH && self.y < GRID_WIDTH
    }

    /// The point's place in a row of all tiles, column after column.
    pub open spec fn offset(self) -> int {
        self.x * GRID_WIDTH + self.y
    }

    pub fn new(x: u16, y: u16) -> (pt: Self)
        ensures
            pt.x == x,
            pt.y == y,
    {
        Self { x, y }
    }

    /// A point of the grid, each coordinate drawn evenly.
    pub fn rand(rng: &mut StdRng) -> (pt: Self)
        ensures
            pt.in_grid(),
    {
        let x: u16 = uniform_between(rng, 0, GRID_WIDTH as i64 - 1) as u16;
        let y: u16 = uniform_between(rng, 0, GRID_WIDTH as i64 - 1) as u16;
        Self { x, y }
    }

    /// Chessboard distance to the other point.
    pub fn dist(&self, other: Self) -> (distance: u16)
        ensures
            distance == chessboard(*self, other),
    {
        let dx: u16 = if self.x >= other.x {
            self.x - other.x
        } else {
            other.x - self.x
        };
        let dy: u16 = if self.y >= other.y {
            self.y - other.y
        } else {
            other.y - self.y
        };
        if dx >= dy {
            dx
        } else {
            dy
        }
    }

    /// The angle at which the other point lies, in millionths of a radian
    /// between minus half a turn and half a turn: zero toward rising
    /// columns, a quarter turn toward rising rows.
    pub fn angle_to(&self, other: Self) -> (angle: i32)
        ensures
            angle == arc_tangent(other.y - self.y, other.x - self.x),
            -crate::trig::HALF_TURN <= angle <= crate::trig::HALF_TURN,
    {
        arc_tangent2(other.y as i64 - self.y as i64, other.x as i64 - self.x as i64)
    }

    /// The neighbour in the given direction, on the torus.
    pub fn move_dir(&self, dir: Direction) -> (pt: Self)
        ensures
            pt.x == wrapped(self.x + dir.dx()),
            pt.y == wrapped(self.y + dir.dy()),
            pt.in_grid(),
    {
        let dx: i32 = match dir {
            Direction::UpRight | Direction::Right | Direction::DownRight => 1,
            Direction::DownLeft | Direction::Left | Direction::UpLeft => -1,
            Direction::Up | Direction::Down => 0,
        };
        let dy: i32 = match dir {
            Direction::DownRight | Direction::Down | Direction::DownLeft => 1,
            Direction::UpLeft | Direction::Up | Direction::UpRight => -1,
            Direction::Left | Direction::Right => 0,
        };
        Self { x: wrap_coordinate(self.x as i32 + dx), y: wrap_coordinate(self.y as i32 + dy) }
    }
}

/// Whatever a coordinate is before, it lies in the grid once it is wrapped,
/// and the grid's width itself becomes zero.
pub proof fn lemma_wrapped(coordinate: int)
    ensures
        0 <= wrapped(coordinate) < GRID_WIDTH,
        wrapped(GRID_WIDTH as int) == 0,
{
    vstd::arithmetic::div_mod::lemma_mod_bound(coordinate, GRID_WIDTH as int);
}

/// The point at the given place in the row of all tiles: the place's
/// quotient by the grid's width is the column, and the remainder the row. A
/// column beyond 16 bits keeps its low 16 bits.
pub open spec fn point_at(value: usize) -> GridPoint {
    GridPoint {
        x: ((value / (GRID_WIDTH as usize)) % 0x1_0000) as u16,
        y: (value % (GRID_WIDTH as usize)) as u16,
    }
}

impl From<usize> for GridPoint {
    fn from(value: usize) -> (pt: Self) {
        let y: usize = value % (GRID_WIDTH as usize);
        let x: usize = (value / (GRID_WIDTH as usize)) % 0x1_0000;
        Self { x: x as u16, y: y as u16 }
    }
}

impl vstd::std_specs::convert::FromSpecImpl<usize> for GridPoint {
    open spec fn obeys_from_spec() -> bool {
        true
    }

    open spec fn from_spec(value: usize) -> Self {
        point_at(value)
    }
}

/// Brings a coordinate into the grid.
pub fn wrap_coordinate(coordinate: i32) -> (inside: u16)
    requires
        -(GRID_WIDTH as int) <= coordinate <= 0x1_0000,
    ensures
        inside == wrapped(coordinate as int),
        inside < GRID_WIDTH,
{
    let width: i32 = GRID_WIDTH as i32;
    proof {
        vstd::arithmetic::div_mod::lemma_mod_add_multiples_vanish(
            coordinate as int,
            GRID_WIDTH as int,
        );
    }
    ((coordinate + width) % width) as u16
}

/// The points no further than `max_range` from `pos` in chessboard distance,
/// as far as the grid reaches, but for `pos` itself; by column, then by row.
pub fn get_points_in_range(pos: GridPoint, max_range: u16) -> (points: Vec<GridPoint>)
    ensures
        points@ == points_in_range(pos, max_range),
        forall|pt: GridPoint|
            points@.contains(pt) <==> in_square(pos, max_range, pt) && pt != pos,
        forall|pt: GridPoint|
            points@.contains(pt) <==> pt.in_grid() && 0 < chessboard(pos, pt) <= max_range,
        forall|i: int, j: int|
            0 <= i < j < points@.len() ==> precedes(#[trigger] points@[i], #[trigger] points@[j]),
{
    let mut points: Vec<GridPoint> = Vec::new();
    let width: u32 = GRID_WIDTH as u32;
    let reach: u32 = max_range as u32;
    let first_x: u32 = if pos.x as u32 > reach {
        pos.x as u32 - reach
    } else {
        0
    };
    let first_y: u32 = if pos.y as u32 > reach {
        pos.y as u32 - reach
    } else {
        0
    };
    let end_x: u32 = if pos.x as u32 + reach < width - 1 {
        pos.x as u32 + reach + 1
    } else {
        width
    };
    let end_y: u32 = if pos.y as u32 + reach < width - 1 {
        pos.y as u32 + reach + 1
    } else {
        width
    };
    if end_x <= first_x {
        return points;
    }
    let mut x: u32 = first_x;
    while x < end_x
        invariant
            width == GRID_WIDTH,
            end_x <= width,
            end_y <= width,
            first_x <= x <= end_x,
            first_x == range_first(pos.x, max_range),
            first_y == range_first(pos.y, max_range),
            end_x == range_end(pos.x, max_range),
            end_y == range_end(pos.y, max_range),
            points@ == block_points(pos, first_x as int, x as int, first_y as int, end_y as int),
            forall|i: int|
                0 <= i < points@.len() ==> in_square(pos, max_range, #[trigger] points@[i])
                    && points@[i] != pos && points@[i].x < x,
            forall|pt: GridPoint|
                in_square(pos, max_range, pt) && pt != pos && pt.x < x ==> points@.contains(pt),
            forall|i: int, j: int|
                0 <= i < j < points@.len() ==> precedes(
                    #[trigger] points@[i],
                    #[trigger] points@[j],
                ),
        decreases width - x,
    {
        let mut y: u32 = first_y;
        assert(points@ =~= points@ + column_points(pos, x as int, first_y as int, y as int));
        while y < end_y
            invariant
                width == GRID_WIDTH,
                end_x <= width,
                end_y <= width,
                first_x <= x < end_x,
                first_y <= y,
                y <= end_y || y == first_y,
                first_x == range_first(pos.x, max_range),
                first_y == range_first(pos.y, max_range),
                end_x == range_end(pos.x, max_range),
                end_y == range_end(pos.y, max_range),
                points@ == block_points(pos, first_x as int, x as int, first_y as int, end_y as int)
                    + column_points(pos, x as int, first_y as int, y as int),
                forall|i: int|
                    0 <= i < points@.len() ==> in_square(pos, max_range, #[trigger] points@[i])
                        && points@[i] != pos && (points@[i].x < x || (points@[i].x == x
                        && points@[i].y < y)),
                forall|pt: GridPoint|
                    in_square(pos, max_range, pt) && pt != pos && (pt.x < x || (pt.x == x
                        && pt.y < y)) ==> points@.contains(pt),
                forall|i: int, j: int|
                    0 <= i < j < points@.len() ==> precedes(
                        #[trigger] points@[i],
                        #[trigger] points@[j],
                    ),
            decreases width - y,
        {
            if x != pos.x as u32 || y != pos.y as u32 {
                let pt = GridPoint { x: x as u16, y: y as u16 };
                let ghost before = points@;
                points.push(pt);
                proof {
                    assert(points@ =~= block_points(
                        pos,
                        first_x as int,
                        x as int,
                        first_y as int,
                        end_y as int,
                    ) + column_points(pos, x as int, first_y as int, y + 1));
                    assert(points@[before.len() as int] == pt);
                    assert forall|q: GridPoint|
                        in_square(pos, max_range, q) && q != pos && (q.x < x || (q.x == x && q.y
                            < y + 1)) implies points@.contains(q) by {
                        if q.x == x && q.y == y {
                            assert(q == pt);
                        } else {
                            assert(before.contains(q));
                            let at = choose|at: int| 0 <= at < before.len() && before[at] == q;
                            assert(points@[at] == q);
                        }
                    }
                }
            }
            y = y + 1;
        }
        proof {
            assert(column_points(pos, x as int, first_y as int, y as int) == column_points(
                pos,
                x as int,
                first_y as int,
                end_y as int,
            ));
            assert(points@ == block_points(
                pos,
                first_x as int,
                x + 1,
                first_y as int,
                end_y as int,
            ));
            assert forall|q: GridPoint|
                in_square(pos, max_range, q) && q != pos && q.x < x + 1 implies points@.contains(
                q,
            ) by {
                if q.x == x {
                    assert(q.y < y);
                }
            }
        }
        x = x + 1;
    }
    proof {
        assert forall|pt: GridPoint| points@.contains(pt) implies in_square(pos, max_range, pt)
            && pt != pos by {
            let at = choose|at: int| 0 <= at < points@.len() && points@[at] == pt;
            assert(in_square(pos, max_range, points@[at]));
        }
    }
    points
}

} // verus!
