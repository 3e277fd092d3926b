//! How the six faces join along their edges.
//!
//! Every face is a `width` by `width` grid of cells. A coordinate that leaves
//! a face through one of its four edges continues on the neighbouring face;
//! there it has other coordinates, and directions carried along have to be
//! turned. All of this follows from one table, [`seam`], which names for each
//! face and edge the neighbouring face and the rotation between the two grids.
//!
//! Positions are measured in *centred half cells*: twice the grid coordinate,
//! counted from the centre of the face. The face covers `-width ..= width` on
//! both axes, the centre of cell `ix` lies at `2 * ix + 1 - width`, and the
//! grid line left of cell `ix` at `2 * ix - width`. In these units cell
//! centres and grid lines are all whole numbers.

use vstd::prelude::*;
use crate::rotation::Rotation;
use crate::side::Side;

verus! {

/// One of the four edges of a face.
#[derive(Debug, Clone, Copy, PartialEq, Eq, Hash, Structural)]
pub enum Edge {
    /// `x < 0`
    Left,
    /// `x >= width`
    Right,
    /// `y < 0`
    Up,
    /// `y >= width`
    Down,
}

/// What lies beyond an edge of a face.
#[derive(Debug, Clone, Copy, PartialEq, Eq, Structural)]
pub struct Seam {
    /// the neighbouring face
    pub side: Side,
    /// turns a direction on this face into the same direction on the neighbour
    pub turn: Rotation,
}

/// A cell together with the rotation that was picked up on the way to it.
#[derive(Debug, Clone, Copy, PartialEq, Eq, Structural)]
pub struct Crossing {
    pub side: Side,
    pub x: usize,
    pub y: usize,
    pub turn: Rotation,
}

/// Mathematical value of a [`Crossing`].
pub ghost struct Landing {
    pub side: Side,
    pub x: int,
    pub y: int,
    pub turn: Rotation,
}

impl View for Crossing {
    type V = Landing;

    open spec fn view(&self) -> Landing {
        Landing { side: self.side, x: self.x as int, y: self.y as int, turn: self.turn }
    }
}

/// Why a coordinate has no cell on a neighbouring face.
#[derive(Debug, Clone, Copy, PartialEq, Eq, Structural)]
pub enum CrossingError {
    /// Both coordinates are out of range. Three faces meet at a corner of the
    /// cube, so there is no cell diagonally across it.
    Corner,
    /// The coordinate lies more than one face width beyond the edge.
    OutOfReach,
}

impl Edge {
    /// The vector of length `d` that points out of the face through this edge.
    pub open spec fn outward(self, d: int) -> (int, int) {
        match self {
            Edge::Left => (-d, 0),
            Edge::Right => (d, 0),
            Edge::Up => (0, -d),
            Edge::Down => (0, d),
        }
    }

    /// The edge on the other side of the face.
    pub open spec fn across(self) -> Edge {
        match self {
            Edge::Left => Edge::Right,
            Edge::Right => Edge::Left,
            Edge::Up => Edge::Down,
            Edge::Down => Edge::Up,
        }
    }

    /// The edge that `turn` carries this edge's outward direction to.
    pub open spec fn turned_by(self, turn: Rotation) -> Edge {
        let (dx, dy) = self.outward(1);
        let (tx, ty) = turn.turn(dx, dy);
        if tx < 0 {
            Edge::Left
        } else if tx > 0 {
            Edge::Right
        } else if ty < 0 {
            Edge::Up
        } else {
            Edge::Down
        }
    }

    pub fn opposite(self) -> (e: Edge)
        ensures
            e == self.across(),
    {
        match self {
            Edge::Left => Edge::Right,
            Edge::Right => Edge::Left,
            Edge::Up => Edge::Down,
            Edge::Down => Edge::Up,
        }
    }

    pub fn turned(self, turn: Rotation) -> (e: Edge)
        ensures
            e == self.turned_by(turn),
    {
        let (dx, dy): (i64, i64) = match self {
            Edge::Left => (-1, 0),
            Edge::Right => (1, 0),
            Edge::Up => (0, -1),
            Edge::Down => (0, 1),
        };
        let (tx, ty) = turn.apply(dx, dy);
        if tx < 0 {
            Edge::Left
        } else if tx > 0 {
            Edge::Right
        } else if ty < 0 {
            Edge::Up
        } else {
            Edge::Down
        }
    }
}

/// The seam table of the cube: the face beyond `edge` of `side`, and the
/// rotation from the grid of `side` to the grid of that face.
pub open spec fn seam(side: Side, edge: Edge) -> Seam {
    match edge {
        Edge::Left => match side {
            Side::L => Seam { side: Side::F, turn: Rotation::Identity },
            Side::B => Seam { side: Side::L, turn: Rotation::Identity },
            Side::R => Seam { side: Side::B, turn: Rotation::Identity },
            Side::F => Seam { side: Side::R, turn: Rotation::Identity },
            Side::U => Seam { side: Side::L, turn: Rotation::CounterClockwise },
            Side::D => Seam { side: Side::L, turn: Rotation::Clockwise },
        },
        Edge::Right => match side {
            Side::L => Seam { side: Side::B, turn: Rotation::Identity },
            Side::B => Seam { side: Side::R, turn: Rotation::Identity },
            Side::R => Seam { side: Side::F, turn: Rotation::Identity },
            Side::F => Seam { side: Side::L, turn: Rotation::Identity },
            Side::U => Seam { side: Side::R, turn: Rotation::Clockwise },
            Side::D => Seam { side: Side::R, turn: Rotation::CounterClockwise },
        },
        Edge::Up => match side {
            Side::L => Seam { side: Side::U, turn: Rotation::Clockwise },
            Side::B => Seam { side: Side::U, turn: Rotation::Identity },
            Side::R => Seam { side: Side::U, turn: Rotation::CounterClockwise },
            Side::F => Seam { side: Side::U, turn: Rotation::Half },
            Side::U => Seam { side: Side::F, turn: Rotation::Half },
            Side::D => Seam { side: Side::B, turn: Rotation::Identity },
        },
        Edge::Down => match side {
            Side::L => Seam { side: Side::D, turn: Rotation::CounterClockwise },
            Side::B => Seam { side: Side::D, turn: Rotation::Identity },
            Side::R => Seam { side: Side::D, turn: Rotation::Clockwise },
            Side::F => Seam { side: Side::D, turn: Rotation::Half },
            Side::U => Seam { side: Side::B, turn: Rotation::Identity },
            Side::D => Seam { side: Side::F, turn: Rotation::Half },
        },
    }
}

/// The edge of the neighbouring face that is glued to `edge` of `side`:
/// through it one comes back.
pub open spec fn return_edge(side: Side, edge: Edge) -> Edge {
    edge.turned_by(seam(side, edge).turn).across()
}

/// Carries the position `(p, q)`, given in centred half cells of `side`,
/// across `edge` into the centred half cells of the neighbouring face: the
/// neighbour's square is moved onto the face and then turned about the centre.
pub open spec fn unfold(side: Side, edge: Edge, p: int, q: int, width: int) -> (int, int) {
    let (dx, dy) = edge.outward(2 * width);
    seam(side, edge).turn.turn(p - dx, q - dy)
}

/// Centre of cell `i`, in centred half cells.
pub open spec fn cell_centre(i: int, width: int) -> int {
    2 * i + 1 - width
}

/// The cell whose centre lies at `p` centred half cells.
pub open spec fn cell_at(p: int, width: int) -> int {
    (p + width - 1) / 2
}

/// The cell of the neighbouring face on which the coordinate `(x, y)` falls,
/// where `(x, y)` is counted on the grid of `side` and lies beyond `edge`.
pub open spec fn cell_across(side: Side, edge: Edge, x: int, y: int, width: int) -> (int, int) {
    let (p, q) = unfold(side, edge, cell_centre(x, width), cell_centre(y, width), width);
    (cell_at(p, width), cell_at(q, width))
}

/// `(x, y)` names a cell of a face.
pub open spec fn in_face(x: int, y: int, width: int) -> bool {
    0 <= x < width && 0 <= y < width
}

/// `(x, y)` is out of range on both axes.
pub open spec fn at_corner(x: int, y: int, width: int) -> bool {
    !(0 <= x < width) && !(0 <= y < width)
}

/// `(x, y)` lies at most one face width outside the face on either axis.
pub open spec fn within_reach(x: int, y: int, width: int) -> bool {
    -width <= x < 2 * width && -width <= y < 2 * width
}

/// The edge through which `(x, y)` has left the face, if it has left through
/// exactly one.
pub open spec fn exit_edge(x: int, y: int, width: int) -> Option<Edge> {
    if 0 <= y < width {
        if x < 0 {
            Some(Edge::Left)
        } else if x >= width {
            Some(Edge::Right)
        } else {
            None
        }
    } else if 0 <= x < width {
        if y < 0 {
            Some(Edge::Up)
        } else {
            Some(Edge::Down)
        }
    } else {
        None
    }
}

/// Where the coordinate `(x, y)`, counted on the grid of `face`, comes to
/// lie: on `face` itself when it is in range, else beyond the edge it left
/// through.
pub open spec fn landing(face: Side, x: int, y: int, width: int) -> Landing {
    match exit_edge(x, y, width) {
        Some(edge) => {
            let c = cell_across(face, edge, x, y, width);
            Landing { side: seam(face, edge).side, x: c.0, y: c.1, turn: seam(face, edge).turn }
        },
        None => Landing { side: face, x: x, y: y, turn: Rotation::Identity },
    }
}

/// The cell one step from `(x, y)` in the direction of `edge`.
pub open spec fn neighbour(face: Side, x: int, y: int, edge: Edge, width: int) -> Landing {
    let (dx, dy) = edge.outward(1);
    landing(face, x + dx, y + dy, width)
}

/// Nearest value to `v` in `0 .. width`.
pub open spec fn clamped(v: int, width: int) -> int {
    if v < 0 {
        0
    } else if v >= width {
        width - 1
    } else {
        v
    }
}

/// The point of the cube's surface, on a cube that reaches from `-width` to
/// `width` on every axis, at position `(p, q)` (in centred half cells) of `side`.
pub open spec fn cube_point(side: Side, p: int, q: int, width: int) -> (int, int, int) {
    match side {
        Side::L => (-width, -p, -q),
        Side::B => (p, -width, -q),
        Side::R => (width, p, -q),
        Side::F => (-p, width, -q),
        Side::U => (p, -q, width),
        Side::D => (p, q, -width),
    }
}

/// The point where `(p, q)`, a position in the plane of `side` that lies
/// `depth` beyond `edge`, comes to lie when the plane is folded down over
/// that edge: `depth` below the nearest point of the edge.
pub open spec fn folded_over(side: Side, edge: Edge, p: int, q: int, width: int) -> (
    int,
    int,
    int,
) {
    let (depth, on_edge) = match edge {
        Edge::Left => (-width - p, cube_point(side, -width, q, width)),
        Edge::Right => (p - width, cube_point(side, width, q, width)),
        Edge::Up => (-width - q, cube_point(side, p, -width, width)),
        Edge::Down => (q - width, cube_point(side, p, width, width)),
    };
    let inward = cube_point(side, 0, 0, -depth);
    (on_edge.0 + inward.0, on_edge.1 + inward.1, on_edge.2 + inward.2)
}

/// Looks up the seam table.
pub fn seam_across(side: Side, edge: Edge) -> (s: Seam)
    ensures
        s == seam(side, edge),
{
    match edge {
        Edge::Left => match side {
            Side::L => Seam { side: Side::F, turn: Rotation::Identity },
            Side::B => Seam { side: Side::L, turn: Rotation::Identity },
            Side::R => Seam { side: Side::B, turn: Rotation::Identity },
            Side::F => Seam { side: Side::R, turn: Rotation::Identity },
            Side::U => Seam { side: Side::L, turn: Rotation::CounterClockwise },
            Side::D => Seam { side: Side::L, turn: Rotation::Clockwise },
        },
        Edge::Right => match side {
            Side::L => Seam { side: Side::B, turn: Rotation::Identity },
            Side::B => Seam { side: Side::R, turn: Rotation::Identity },
            Side::R => Seam { side: Side::F, turn: Rotation::Identity },
            Side::F => Seam { side: Side::L, turn: Rotation::Identity },
            Side::U => Seam { side: Side::R, turn: Rotation::Clockwise },
            Side::D => Seam { side: Side::R, turn: Rotation::CounterClockwise },
        },
        Edge::Up => match side {
            Side::L => Seam { side: Side::U, turn: Rotation::Clockwise },
            Side::B => Seam { side: Side::U, turn: Rotation::Identity },
            Side::R => Seam { side: Side::U, turn: Rotation::CounterClockwise },
            Side::F => Seam { side: Side::U, turn: Rotation::Half },
            Side::U => Seam { side: Side::F, turn: Rotation::Half },
            Side::D => Seam { side: Side::B, turn: Rotation::Identity },
        },
        Edge::Down => match side {
            Side::L => Seam { side: Side::D, turn: Rotation::CounterClockwise },
            Side::B => Seam { side: Side::D, turn: Rotation::Identity },
            Side::R => Seam { side: Side::D, turn: Rotation::Clockwise },
            Side::F => Seam { side: Side::D, turn: Rotation::Half },
            Side::U => Seam { side: Side::B, turn: Rotation::Identity },
            Side::D => Seam { side: Side::F, turn: Rotation::Half },
        },
    }
}

/// The edge of the neighbour through which one returns to `side`.
pub fn back_edge(side: Side, edge: Edge) -> (e: Edge)
    ensures
        e == return_edge(side, edge),
{
    edge.turned(seam_across(side, edge).turn).opposite()
}

/// Finds the cell that the coordinate `(x, y)`, counted on the grid of
/// `face`, falls on, and the rotation that directions pick up on the way.
///
/// A coordinate in range stays where it is. One that has left the face
/// through a single edge, by at most a face width, lands on the neighbouring
/// face. Anything else has no cell.
pub fn cross_edge(face: Side, x: isize, y: isize, width: usize) -> (r: Result<
    Crossing,
    CrossingError,
>)
    requires
        width <= isize::MAX,
    ensures
        match r {
            Ok(c) => {
                &&& !at_corner(x as int, y as int, width as int)
                &&& within_reach(x as int, y as int, width as int)
                &&& c@ == landing(face, x as int, y as int, width as int)
                &&& in_face(c.x as int, c.y as int, width as int)
            },
            Err(CrossingError::Corner) => at_corner(x as int, y as int, width as int),
            Err(CrossingError::OutOfReach) => {
                &&& !at_corner(x as int, y as int, width as int)
                &&& !within_reach(x as int, y as int, width as int)
            },
        },
{
    let w = width as isize;
    let x_in = 0 <= x && x < w;
    let y_in = 0 <= y && y < w;
    if x_in && y_in {
        return Ok(Crossing { side: face, x: x as usize, y: y as usize, turn: Rotation::Identity });
    }
    if !x_in && !y_in {
        return Err(CrossingError::Corner);
    }
    // The cell's place within the neighbouring square, still in the
    // orientation of `face`.
    let edge: Edge;
    let bx: isize;
    let by: isize;
    if !x_in {
        by = y;
        if x < 0 {
            if x < -w {
                return Err(CrossingError::OutOfReach);
            }
            edge = Edge::Left;
            bx = x + w;
        } else {
            if x - w >= w {
                return Err(CrossingError::OutOfReach);
            }
            edge = Edge::Right;
            bx = x - w;
        }
    } else {
        bx = x;
        if y < 0 {
            if y < -w {
                return Err(CrossingError::OutOfReach);
            }
            edge = Edge::Up;
            by = y + w;
        } else {
            if y - w >= w {
                return Err(CrossingError::OutOfReach);
            }
            edge = Edge::Down;
            by = y - w;
        }
    }
    let beyond = seam_across(face, edge);
    let (nx, ny) = match beyond.turn {
        Rotation::Identity => (bx, by),
        Rotation::Clockwise => (w - 1 - by, bx),
        Rotation::Half => (w - 1 - bx, w - 1 - by),
        Rotation::CounterClockwise => (by, w - 1 - bx),
    };
    Ok(Crossing { side: beyond.side, x: nx as usize, y: ny as usize, turn: beyond.turn })
}

/// The cell one step from the cell `(x, y)` of `face` in the direction of
/// `edge`. Every cell has a neighbour in each of the four directions.
pub fn step(face: Side, x: usize, y: usize, edge: Edge, width: usize) -> (c: Crossing)
    requires
        width <= isize::MAX,
        in_face(x as int, y as int, width as int),
    ensures
        c@ == neighbour(face, x as int, y as int, edge, width as int),
        in_face(c.x as int, c.y as int, width as int),
{
    let (nx, ny): (isize, isize) = match edge {
        Edge::Left => (x as isize - 1, y as isize),
        Edge::Right => (x as isize + 1, y as isize),
        Edge::Up => (x as isize, y as isize - 1),
        Edge::Down => (x as isize, y as isize + 1),
    };
    match cross_edge(face, nx, ny, width) {
        Ok(c) => c,
        Err(_) => {
            proof {
                assert(!at_corner(nx as int, ny as int, width as int));
                assert(within_reach(nx as int, ny as int, width as int));
                assert(false);
            }
            Crossing { side: face, x: x, y: y, turn: Rotation::Identity }
        },
    }
}

/// Maps a sampling coordinate of the erosion, which may lie up to a face
/// width outside the face, onto the cell it stands for.
///
/// A coordinate that has left the face through one edge gives the cell on the
/// neighbouring face. A coordinate that is out of range on both axes lies
/// diagonally across a corner of the cube, where no cell is; it gives as the
/// error the two cells next to that place: first the one reached by leaving
/// the face sideways only, with `y` clamped into range, then the one reached
/// by leaving it vertically only, with `x` clamped into range. Callers take
/// the mean of the two.
pub fn remap_erosion_index(i: (isize, isize), width: usize, side: Side) -> (r: Result<
    ((usize, usize), Side),
    (((usize, usize), Side), ((usize, usize), Side)),
>)
    requires
        0 < width <= isize::MAX,
        within_reach(i.0 as int, i.1 as int, width as int),
    ensures
        match r {
            Ok(c) => {
                let to = landing(side, i.0 as int, i.1 as int, width as int);
                &&& !at_corner(i.0 as int, i.1 as int, width as int)
                &&& (c.0).0 == to.x && (c.0).1 == to.y && c.1 == to.side
                &&& in_face(to.x, to.y, width as int)
            },
            Err(e) => {
                let a = landing(side, i.0 as int, clamped(i.1 as int, width as int), width as int);
                let b = landing(side, clamped(i.0 as int, width as int), i.1 as int, width as int);
                &&& at_corner(i.0 as int, i.1 as int, width as int)
                &&& ((e.0).0).0 == a.x && ((e.0).0).1 == a.y && (e.0).1 == a.side
                &&& ((e.1).0).0 == b.x && ((e.1).0).1 == b.y && (e.1).1 == b.side
                &&& in_face(a.x, a.y, width as int)
                &&& in_face(b.x, b.y, width as int)
            },
        },
{
    let (ix, iy) = i;
    match cross_edge(side, ix, iy, width) {
        Ok(c) => Ok(((c.x, c.y), c.side)),
        Err(e) => {
            assert(at_corner(ix as int, iy as int, width as int));
            let w = width as isize;
            let cx: isize = if ix < 0 {
                0
            } else {
                w - 1
            };
            let cy: isize = if iy < 0 {
                0
            } else {
                w - 1
            };
            assert(cx == clamped(ix as int, width as int));
            assert(cy == clamped(iy as int, width as int));
            let a = cross_edge(side, ix, cy, width);
            let b = cross_edge(side, cx, iy, width);
            match (a, b) {
                (Ok(a), Ok(b)) => Err((((a.x, a.y), a.side), ((b.x, b.y), b.side))),
                (Err(_), _) => {
                    proof {
                        assert(false);
                    }
                    Ok(((0, 0), side))
                },
                (_, Err(_)) => {
                    proof {
                        assert(false);
                    }
                    Ok(((0, 0), side))
                },
            }
        },
    }
}

/// The position of the upper left corner of cell `texture_coordinate` of
/// `side` on the surface of the cube, scaled so that the cube reaches from
/// `-width` to `width` on every axis.
pub fn position_on_cube(texture_coordinate: (usize, usize), width: usize, side: Side) -> (v: (
    isize,
    isize,
    isize,
))
    requires
        2 * width <= isize::MAX,
        texture_coordinate.0 <= width,
        texture_coordinate.1 <= width,
    ensures
        (v.0 as int, v.1 as int, v.2 as int) == cube_point(
            side,
            2 * texture_coordinate.0 - width,
            2 * texture_coordinate.1 - width,
            width as int,
        ),
{
    let w = width as isize;
    let p = 2 * (texture_coordinate.0 as isize) - w;
    let q = 2 * (texture_coordinate.1 as isize) - w;
    match side {
        Side::L => (-w, -p, -q),
        Side::B => (p, -w, -q),
        Side::R => (w, p, -q),
        Side::F => (-p, w, -q),
        Side::U => (p, -q, w),
        Side::D => (p, q, -w),
    }
}

/// Coming back through the return edge leads to the face one started from,
/// and undoes the rotation: the seam table is its own inverse.
pub proof fn lemma_seam_returns(side: Side, edge: Edge)
    ensures
        seam(seam(side, edge).side, return_edge(side, edge)).side == side,
        seam(seam(side, edge).side, return_edge(side, edge)).turn == seam(
            side,
            edge,
        ).turn.reversed(),
        seam(side, edge).turn.followed_by(seam(seam(side, edge).side, return_edge(side, edge)).turn)
            == Rotation::Identity,
        return_edge(seam(side, edge).side, return_edge(side, edge)) == edge,
{
}

/// Unfolding across an edge and then back across the return edge gives the
/// position one started from.
pub proof fn lemma_unfold_returns(side: Side, edge: Edge, p: int, q: int, width: int)
    ensures
        ({
            let (p_there, q_there) = unfold(side, edge, p, q, width);
            unfold(seam(side, edge).side, return_edge(side, edge), p_there, q_there, width) == (p, q)
        }),
{
}

/// The rotation of a seam is the linear part of its unfolding: the difference
/// of two unfolded positions is the turned difference of the positions. A
/// direction that is turned by the seam's rotation therefore keeps pointing
/// the same way on the unfolded cube.
pub proof fn lemma_unfold_turns_directions(
    side: Side,
    edge: Edge,
    p: int,
    q: int,
    dp: int,
    dq: int,
    width: int,
)
    ensures
        ({
            let (p_here, q_here) = unfold(side, edge, p, q, width);
            let (p_there, q_there) = unfold(side, edge, p + dp, q + dq, width);
            let (tp, tq) = seam(side, edge).turn.turn(dp, dq);
            p_there - p_here == tp && q_there - q_here == tq
        }),
{
}

/// The seam table agrees with the shape of the cube: a position beyond an
/// edge of a face, unfolded onto the neighbouring face, is the point of the
/// cube's surface that the position comes to lie on when the plane of the
/// face is folded over that edge.
pub proof fn lemma_unfold_is_fold(side: Side, edge: Edge, p: int, q: int, width: int)
    ensures
        ({
            let (p_there, q_there) = unfold(side, edge, p, q, width);
            cube_point(seam(side, edge).side, p_there, q_there, width) == folded_over(
                side,
                edge,
                p,
                q,
                width,
            )
        }),
{
}

/// A coordinate that has left the face through one edge by at most a face
/// width lands on a cell of the neighbouring face.
pub proof fn lemma_landing_in_face(face: Side, x: int, y: int, width: int)
    requires
        within_reach(x, y, width),
        !at_corner(x, y, width),
    ensures
        in_face(landing(face, x, y, width).x, landing(face, x, y, width).y, width),
{
}

/// Every step from a cell leads to a cell.
pub proof fn lemma_neighbour_in_face(face: Side, x: int, y: int, edge: Edge, width: int)
    requires
        in_face(x, y, width),
    ensures
        in_face(
            neighbour(face, x, y, edge, width).x,
            neighbour(face, x, y, edge, width).y,
            width,
        ),
{
}

/// Crossing an edge and immediately crossing back through the return edge
/// leads to the cell one started from, and the two rotations picked up on the
/// way cancel.
pub proof fn lemma_cross_back(face: Side, x: int, y: int, edge: Edge, width: int)
    requires
        in_face(x, y, width),
        exit_edge(x + edge.outward(1).0, y + edge.outward(1).1, width) == Some(edge),
    ensures
        ({
            let out = neighbour(face, x, y, edge, width);
            let back = neighbour(out.side, out.x, out.y, return_edge(face, edge), width);
            &&& in_face(out.x, out.y, width)
            &&& back.side == face
            &&& back.x == x
            &&& back.y == y
            &&& out.turn.followed_by(back.turn) == Rotation::Identity
        }),
{
}

/// Being neighbours is mutual: for every step from a cell to a neighbouring
/// cell there is a step that leads back.
pub proof fn lemma_neighbour_symmetric(face: Side, x: int, y: int, edge: Edge, width: int)
    requires
        in_face(x, y, width),
    ensures
        ({
            let out = neighbour(face, x, y, edge, width);
            exists|back: Edge|
                {
                    let home = #[trigger] neighbour(out.side, out.x, out.y, back, width);
                    home.side == face && home.x == x && home.y == y
                }
        }),
{
    let out = neighbour(face, x, y, edge, width);
    let (dx, dy) = edge.outward(1);
    if in_face(x + dx, y + dy, width) {
        let home = neighbour(out.side, out.x, out.y, edge.across(), width);
        assert(home.side == face && home.x == x && home.y == y);
    } else {
        lemma_cross_back(face, x, y, edge, width);
        let home = neighbour(out.side, out.x, out.y, return_edge(face, edge), width);
        assert(home.side == face && home.x == x && home.y == y);
    }
}

} // verus!
