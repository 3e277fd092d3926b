//! The terrain state: six square grids of cells, one per face.
//!
//! The grids are generic in the type `H` of a height. The library never
//! computes with heights; it stores them, hands them back, and promises to
//! leave them alone where it changes something else.

use vstd::prelude::*;
use crate::side::Side;
use crate::topology::in_face;

verus! {

/// The continent index of a cell that belongs to no continent yet.
pub const UNASSIGNED: usize = usize::MAX;

/// One cell of a face.
#[derive(Debug)]
pub struct ProtoHeightMapValue<H> {
    pub height: H,
    /// index of the continent the cell belongs to, or [`UNASSIGNED`]
    pub continent_index: usize,
}

/// The grid of one face, stored row by row.
#[derive(Debug)]
pub struct ProtoHeightMap<H> {
    pub side: Side,
    pub values: Vec<ProtoHeightMapValue<H>>,
    pub width: usize,
}

/// A cell of the cube's surface.
#[derive(Debug, Clone, Copy, PartialEq, Eq, Hash, Structural)]
pub struct ContinentPixel {
    pub side: Side,
    pub ix: usize,
    pub iy: usize,
}

/// The six grids of a planet.
#[derive(Debug)]
pub struct Cube<H> {
    pub l: ProtoHeightMap<H>,
    pub b: ProtoHeightMap<H>,
    pub r: ProtoHeightMap<H>,
    pub f: ProtoHeightMap<H>,
    pub u: ProtoHeightMap<H>,
    pub d: ProtoHeightMap<H>,
}

/// Number of cells on a cube whose faces are `width` cells wide.
pub open spec fn cell_count(width: int) -> int {
    6 * (width * width)
}

/// Position of the cell `(x, y)` in the row by row order of a face.
pub open spec fn row_major(x: int, y: int, width: int) -> int {
    x + y * width
}

/// Position of a cell in the order that lists the faces one after another,
/// each row by row.
pub open spec fn linear_index(side: Side, x: int, y: int, width: int) -> int {
    side.ordinal() * (width * width) + row_major(x, y, width)
}

/// Cells of a face have row by row positions below `width * width`, and
/// different cells have different positions.
pub proof fn lemma_row_major(x: int, y: int, width: int)
    requires
        in_face(x, y, width),
    ensures
        0 <= row_major(x, y, width) < width * width,
        row_major(x, y, width) % width == x,
        row_major(x, y, width) / width == y,
{
    assert(0 <= y * width <= (width - 1) * width) by (nonlinear_arith)
        requires
            0 <= y <= width - 1,
            width > 0,
    ;
    assert((width - 1) * width == width * width - width) by (nonlinear_arith);
    vstd::arithmetic::div_mod::lemma_fundamental_div_mod_converse(
        row_major(x, y, width),
        width,
        y,
        x,
    );
}

/// Cells of the cube have positions below the number of cells, and the
/// position tells the face and the cell.
pub proof fn lemma_linear_index(side: Side, x: int, y: int, width: int)
    requires
        in_face(x, y, width),
    ensures
        0 <= linear_index(side, x, y, width) < cell_count(width),
        linear_index(side, x, y, width) / (width * width) == side.ordinal(),
        linear_index(side, x, y, width) % (width * width) == row_major(x, y, width),
{
    lemma_row_major(x, y, width);
    let area = width * width;
    assert(area > 0) by (nonlinear_arith)
        requires
            width > 0,
            area == width * width,
    ;
    let k = side.ordinal();
    assert(0 <= k * area <= 5 * area) by (nonlinear_arith)
        requires
            0 <= k <= 5,
            area > 0,
    ;
    vstd::arithmetic::div_mod::lemma_fundamental_div_mod_converse(
        linear_index(side, x, y, width),
        area,
        k,
        row_major(x, y, width),
    );
}

impl<H: Copy> Copy for ProtoHeightMapValue<H> {

}

impl<H: Copy> Clone for ProtoHeightMapValue<H> {
    fn clone(&self) -> (value: Self)
        ensures
            value == *self,
    {
        *self
    }
}

impl<H: Copy> ProtoHeightMap<H> {
    /// The grid holds `width * width` cells.
    pub open spec fn wf(&self) -> bool {
        self.values.len() == self.width * self.width
    }

    /// The cell at `(x, y)`, for a coordinate of the face: `x` and `y` from 0
    /// up to the width. Of other coordinates it says nothing of use.
    pub open spec fn cell(&self, x: int, y: int) -> ProtoHeightMapValue<H> {
        self.values@[row_major(x, y, self.width as int)]
    }

    /// A grid of `width * width` cells, all with the given height and none
    /// with a continent.
    pub fn new(side: Side, width: usize, height: H) -> (map: Self)
        requires
            width * width <= usize::MAX,
        ensures
            map.wf(),
            map.side == side,
            map.width == width,
            forall|i: int|
                0 <= i < width * width ==> (#[trigger] map.values@[i]).height == height
                    && map.values@[i].continent_index == UNASSIGNED,
    {
        let value = ProtoHeightMapValue { height, continent_index: UNASSIGNED };
        let len = width * width;
        let mut values: Vec<ProtoHeightMapValue<H>> = Vec::with_capacity(len);
        let mut i: usize = 0;
        while i < len
            invariant
                i <= len,
                values@.len() == i,
                value.height == height,
                value.continent_index == UNASSIGNED,
                forall|j: int|
                    0 <= j < i ==> (#[trigger] values@[j]).height == height
                        && values@[j].continent_index == UNASSIGNED,
            decreases len - i,
        {
            values.push(value);
            i += 1;
        }
        Self { side, values, width }
    }

    pub fn get(&self, x: usize, y: usize) -> (value: ProtoHeightMapValue<H>)
        requires
            self.wf(),
            in_face(x as int, y as int, self.width as int),
        ensures
            value == self.cell(x as int, y as int),
    {
        let i = self.index(x, y);
        self.values[i]
    }

    /// The cell at `(x, y)`, if the grid has such a cell: if `x` and `y` are
    /// both below the width, and the grid holds the cell's position.
    ///
    /// On a grid of `width * width` cells the result is a cell exactly for
    /// the coordinates of the face.
    pub fn try_get(&self, x: usize, y: usize) -> (value: Option<ProtoHeightMapValue<H>>)
        ensures
            value == (if in_face(x as int, y as int, self.width as int) && row_major(
                x as int,
                y as int,
                self.width as int,
            ) < self.values@.len() {
                Some(self.cell(x as int, y as int))
            } else {
                None
            }),
            self.wf() ==> (value.is_some() <==> in_face(x as int, y as int, self.width as int)),
    {
        if x >= self.width || y >= self.width {
            return None;
        }
        proof {
            lemma_row_major(x as int, y as int, self.width as int);
        }
        let len = self.values.len();
        let row = match y.checked_mul(self.width) {
            Some(row) => row,
            None => {
                return None;
            },
        };
        let i = match x.checked_add(row) {
            Some(i) => i,
            None => {
                return None;
            },
        };
        if i < len {
            Some(self.values[i])
        } else {
            None
        }
    }

    pub fn set(&mut self, x: usize, y: usize, value: ProtoHeightMapValue<H>)
        requires
            old(self).wf(),
            in_face(x as int, y as int, old(self).width as int),
        ensures
            final(self).wf(),
            final(self).side == old(self).side,
            final(self).width == old(self).width,
            final(self).values@ == old(self).values@.update(
                row_major(x as int, y as int, old(self).width as int),
                value,
            ),
            final(self).cell(x as int, y as int) == value,
            forall|u: int, v: int|
                in_face(u, v, old(self).width as int) && (u != x || v != y)
                    ==> final(self).cell(u, v) == old(self).cell(u, v),
    {
        let i = self.index(x, y);
        let ghost width = self.width as int;
        assert forall|u: int, v: int| in_face(u, v, width) && (u != x || v != y) implies row_major(
            u,
            v,
            width,
        ) != i && 0 <= row_major(u, v, width) < width * width by {
            lemma_row_major(u, v, width);
            lemma_row_major(x as int, y as int, width);
        }
        self.values.set(i, value);
    }

    /// Position of the cell `(x, y)` in `values`.
    pub fn index(&self, x: usize, y: usize) -> (i: usize)
        requires
            self.wf(),
            in_face(x as int, y as int, self.width as int),
        ensures
            i == row_major(x as int, y as int, self.width as int),
            i < self.values@.len(),
    {
        proof {
            lemma_row_major(x as int, y as int, self.width as int);
            assert(0 <= y * self.width) by (nonlinear_arith);
        }
        x + y * self.width
    }
}

impl ContinentPixel {
    /// The pixel names a cell of a cube whose faces are `width` wide.
    pub open spec fn valid(self, width: int) -> bool {
        in_face(self.ix as int, self.iy as int, width)
    }

    /// Position of the pixel among all cells of the cube.
    pub open spec fn linear(self, width: int) -> int {
        linear_index(self.side, self.ix as int, self.iy as int, width)
    }

    /// The pixel's position among all cells of the cube: faces one after
    /// another, each row by row.
    pub fn to_linear(self, width: usize) -> (i: usize)
        requires
            self.valid(width as int),
            cell_count(width as int) <= usize::MAX,
        ensures
            i == self.linear(width as int),
            i < cell_count(width as int),
    {
        proof {
            lemma_linear_index(self.side, self.ix as int, self.iy as int, width as int);
            lemma_row_major(self.ix as int, self.iy as int, width as int);
            assert(0 <= self.side.ordinal() * (width * width) <= 5 * (width * width))
                by (nonlinear_arith)
                requires
                    0 <= self.side.ordinal() <= 5,
            ;
        }
        let area = width * width;
        self.side.to_index() * area + (self.ix + self.iy * width)
    }

    /// The cell at position `i` among all cells of the cube.
    pub fn from_linear(i: usize, width: usize) -> (pixel: ContinentPixel)
        requires
            i < cell_count(width as int),
            cell_count(width as int) <= usize::MAX,
        ensures
            pixel.valid(width as int),
            pixel.linear(width as int) == i,
    {
        let area = width * width;
        assert(width > 0 && area > 0) by (nonlinear_arith)
            requires
                i < 6 * (width * width),
                area == width * width,
        ;
        let face = i / area;
        let rest = i % area;
        assert(face < 6 && i == face * area + rest) by (nonlinear_arith)
            requires
                i < 6 * area,
                area > 0,
                face == i / area,
                rest == i % area,
        ;
        let iy = rest / width;
        let ix = rest % width;
        assert(iy < width && rest == ix + iy * width) by (nonlinear_arith)
            requires
                rest < width * width,
                width > 0,
                iy == rest / width,
                ix == rest % width,
        ;
        let side = Side::from_index(face);
        ContinentPixel { side, ix, iy }
    }
}

impl Default for ContinentPixel {
    fn default() -> (pixel: ContinentPixel)
        ensures
            pixel == (ContinentPixel { side: Side::L, ix: 0, iy: 0 }),
    {
        ContinentPixel { side: Side::L, ix: 0, iy: 0 }
    }
}

impl<H: Copy> Cube<H> {
    /// The grid of `side`.
    pub open spec fn face(&self, side: Side) -> ProtoHeightMap<H> {
        match side {
            Side::L => self.l,
            Side::B => self.b,
            Side::R => self.r,
            Side::F => self.f,
            Side::U => self.u,
            Side::D => self.d,
        }
    }

    /// Width of every face.
    pub open spec fn width(&self) -> int {
        self.l.width as int
    }

    /// Every face is a full grid that knows which face it is, and all six
    /// have the same width.
    pub open spec fn wf(&self) -> bool {
        forall|side: Side|
            (#[trigger] self.face(side)).wf() && self.face(side).side == side && self.face(
                side,
            ).width == self.width()
    }

    /// The cell `(x, y)` of `side`, for a coordinate of the face.
    pub open spec fn cell(&self, side: Side, x: int, y: int) -> ProtoHeightMapValue<H> {
        self.face(side).cell(x, y)
    }

    /// The cell that `pixel` names, for a pixel of the cube.
    pub open spec fn at(&self, pixel: ContinentPixel) -> ProtoHeightMapValue<H> {
        self.cell(pixel.side, pixel.ix as int, pixel.iy as int)
    }

    /// Six grids of the given width, all cells with the given height and
    /// without a continent.
    pub fn new(width: usize, height: H) -> (cube: Self)
        requires
            width * width <= usize::MAX,
        ensures
            cube.wf(),
            cube.width() == width,
            forall|side: Side, x: int, y: int|
                in_face(x, y, width as int) ==> (#[trigger] cube.cell(side, x, y)).height == height
                    && cube.cell(side, x, y).continent_index == UNASSIGNED,
            forall|pixel: ContinentPixel|
                pixel.valid(width as int) ==> (#[trigger] cube.at(pixel)).height == height
                    && cube.at(pixel).continent_index == UNASSIGNED,
    {
        let cube = Cube {
            l: ProtoHeightMap::new(Side::L, width, height),
            b: ProtoHeightMap::new(Side::B, width, height),
            r: ProtoHeightMap::new(Side::R, width, height),
            f: ProtoHeightMap::new(Side::F, width, height),
            u: ProtoHeightMap::new(Side::U, width, height),
            d: ProtoHeightMap::new(Side::D, width, height),
        };
        assert forall|side: Side, x: int, y: int| in_face(x, y, width as int) implies (
        #[trigger] cube.cell(side, x, y)).height == height && cube.cell(
            side,
            x,
            y,
        ).continent_index == UNASSIGNED by {
            lemma_row_major(x, y, width as int);
        }
        cube
    }

    pub fn side_width(&self) -> (width: usize)
        ensures
            width == self.width(),
    {
        self.l.width
    }

    /// The grid of `side`.
    pub fn face_of(&self, side: Side) -> (map: &ProtoHeightMap<H>)
        ensures
            *map == self.face(side),
    {
        match side {
            Side::L => &self.l,
            Side::B => &self.b,
            Side::R => &self.r,
            Side::F => &self.f,
            Side::U => &self.u,
            Side::D => &self.d,
        }
    }

    pub fn get(&self, side: Side, x: usize, y: usize) -> (value: ProtoHeightMapValue<H>)
        requires
            self.wf(),
            in_face(x as int, y as int, self.width()),
        ensures
            value == self.cell(side, x as int, y as int),
    {
        assert(self.face(side).wf());
        self.face_of(side).get(x, y)
    }

    /// Replaces one cell and leaves all others as they were.
    pub fn set(&mut self, side: Side, x: usize, y: usize, value: ProtoHeightMapValue<H>)
        requires
            old(self).wf(),
            in_face(x as int, y as int, old(self).width()),
        ensures
            final(self).wf(),
            final(self).width() == old(self).width(),
            final(self).cell(side, x as int, y as int) == value,
            forall|s: Side, u: int, v: int|
                in_face(u, v, old(self).width()) && (s != side || u != x || v != y)
                    ==> final(self).cell(s, u, v) == old(self).cell(s, u, v),
    {
        assert(self.face(side).wf());
        assert(forall|s: Side| (#[trigger] self.face(s)).width == self.width());
        match side {
            Side::L => self.l.set(x, y, value),
            Side::B => self.b.set(x, y, value),
            Side::R => self.r.set(x, y, value),
            Side::F => self.f.set(x, y, value),
            Side::U => self.u.set(x, y, value),
            Side::D => self.d.set(x, y, value),
        }
        assert forall|s: Side| (#[trigger] self.face(s)).wf() && self.face(s).side == s
            && self.face(s).width == self.width() by {
            assert(old(self).face(s).wf());
        }
    }
}

} // verus!
