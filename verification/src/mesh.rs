//! Mesh builder: zips grid coordinates with their elevations into vertices
//! and generates the triangle index list of a regular triangulated grid.
//!
//! Vertex heights are exact rationals: the raw elevation over the configured
//! scale divisor. Consumers perform the one floating-point division at the
//! very edge, outside this library.

use vstd::prelude::*;
use vstd::arithmetic::div_mod::lemma_fundamental_div_mod_converse_div;
use vstd::arithmetic::div_mod::lemma_fundamental_div_mod_converse_mod;
use vstd::arithmetic::div_mod::lemma_mod_bound;
use vstd::arithmetic::div_mod::lemma_multiply_divide_lt;
use vstd::arithmetic::div_mod::lemma_div_pos_is_pos;

use crate::grid::GridCoordinate;
use crate::grid::dims_wf;

verus! {

/// One renderable vertex: grid-space position on the X/Z plane and the
/// height as the exact rational `y_num / y_den` (scaled elevation).
#[derive(Clone, Copy, PartialEq, Eq, Structural, Debug)]
pub struct Vertex {
    pub x: u32,
    pub z: u32,
    pub y_num: i64,
    pub y_den: u32,
}

/// The finished mesh: an ordered vertex buffer and a triangle list whose
/// entries index into it, three consecutive indices per triangle.
#[derive(Debug)]
pub struct Topology {
    pub vertices: Vec<Vertex>,
    pub indices: Vec<u32>,
}

/// The vertex a coordinate and its elevation map to: X/Z from the grid
/// position, Y the rational `elevation / scale`.
pub open spec fn vertex_at(c: GridCoordinate, elevation: i64, scale: u32) -> Vertex {
    Vertex { x: c.grid_x, z: c.grid_z, y_num: elevation, y_den: scale }
}

/// The quad a triangle-list position belongs to: six indices per quad.
pub open spec fn quad_of(j: int) -> int {
    j / 6
}

/// The grid row of the quad at triangle-list position `j`.
pub open spec fn quad_row(width: int, j: int) -> int {
    quad_of(j) / (width - 1)
}

/// The grid column of the quad at triangle-list position `j`.
pub open spec fn quad_col(width: int, j: int) -> int {
    quad_of(j) % (width - 1)
}

/// The index buffer entry at position `j`: the quad with top-left corner
/// `row * width + col` is covered by triangles `(i, i+width, i+1)` and
/// `(i+1, i+width, i+width+1)`, which share the diagonal `i+1 <-> i+width`
/// so the winding stays consistent across the grid.
pub open spec fn index_at(width: int, j: int) -> int {
    let base = quad_row(width, j) * width + quad_col(width, j);
    let t = j % 6;
    if t == 0 {
        base
    } else if t == 1 {
        base + width
    } else if t == 2 {
        base + 1
    } else if t == 3 {
        base + 1
    } else if t == 4 {
        base + width
    } else {
        base + width + 1
    }
}

/// Every index buffer entry addresses a vertex of the grid, and stays inside
/// its own quad: its column is the quad's column or the one to the right
/// (never wrapping past the last column), and its row is the quad's row or
/// the one below. In particular no triangle connects the last column of a
/// row to the first column of another.
pub proof fn lemma_index_at_in_quad(width: int, depth: int, j: int)
    requires
        2 <= width,
        2 <= depth,
        0 <= j < 6 * ((width - 1) * (depth - 1)),
    ensures
        0 <= quad_col(width, j) < width - 1,
        0 <= quad_row(width, j) < depth - 1,
        index_at(width, j) % width == quad_col(width, j) || index_at(width, j) % width == quad_col(
            width,
            j,
        ) + 1,
        index_at(width, j) / width == quad_row(width, j) || index_at(width, j) / width == quad_row(
            width,
            j,
        ) + 1,
        0 <= index_at(width, j) < width * depth,
{
    let q = quad_of(j);
    lemma_div_pos_is_pos(j, 6);
    lemma_multiply_divide_lt(j, 6, (width - 1) * (depth - 1));
    let r = quad_row(width, j);
    let c = quad_col(width, j);
    lemma_mod_bound(q, width - 1);
    lemma_div_pos_is_pos(q, width - 1);
    lemma_multiply_divide_lt(q, width - 1, depth - 1);
    let base = r * width + c;
    lemma_mod_bound(j, 6);
    lemma_div_pos_is_pos(j, 6);
    let t = j % 6;
    assert(r * width + c >= 0) by (nonlinear_arith)
        requires r >= 0 && c >= 0 && width > 0;
    lemma_fundamental_div_mod_converse_div(base, width, r, c);
    lemma_fundamental_div_mod_converse_mod(base, width, r, c);
    lemma_fundamental_div_mod_converse_div(base + 1, width, r, c + 1);
    lemma_fundamental_div_mod_converse_mod(base + 1, width, r, c + 1);
    assert(r * width + c + width == (r + 1) * width + c) by (nonlinear_arith);
    lemma_fundamental_div_mod_converse_div(base + width, width, r + 1, c);
    lemma_fundamental_div_mod_converse_mod(base + width, width, r + 1, c);
    lemma_fundamental_div_mod_converse_div(base + width + 1, width, r + 1, c + 1);
    lemma_fundamental_div_mod_converse_mod(base + width + 1, width, r + 1, c + 1);
    assert((r + 1) * width + c + 1 < width * depth) by (nonlinear_arith)
        requires 0 <= c < width - 1 && 0 <= r < depth - 1;
}

/// Builds one vertex per coordinate, in the order given: the X/Z position is
/// the integer grid position and the height is the order-matched elevation
/// over `scale`.
pub fn build_vertices(cords: &Vec<GridCoordinate>, elevations: &Vec<i64>, scale: u32) -> (r: Vec<
    Vertex,
>)
    requires
        cords@.len() == elevations@.len(),
        1 <= scale,
    ensures
        r@.len() == cords@.len(),
        forall|i: int| 0 <= i < r@.len() ==> r@[i] == vertex_at(cords@[i], elevations@[i], scale),
{
    let mut vertices: Vec<Vertex> = Vec::new();
    let n = cords.len();
    for i in 0..n
        invariant
            n == cords@.len(),
            cords@.len() == elevations@.len(),
            vertices@.len() == i,
            forall|t: int|
                0 <= t < i ==> vertices@[t] == vertex_at(cords@[t], elevations@[t], scale),
    {
        let c = cords[i];
        vertices.push(Vertex { x: c.grid_x, z: c.grid_z, y_num: elevations[i], y_den: scale });
    }
    vertices
}

/// Generates the triangle list of the `width` by `depth` grid: two triangles
/// for every quad, row by row, skipping the last column of each row (a quad
/// there would wrap to the next row) and the last row (no row below).
pub fn build_indices(width: u32, depth: u32) -> (r: Vec<u32>)
    requires
        dims_wf(width, depth),
    ensures
        r@.len() == 6 * (((width - 1) as int) * ((depth - 1) as int)),
        forall|j: int| 0 <= j < r@.len() ==> r@[j] == index_at(width as int, j),
{
    let mut indices: Vec<u32> = Vec::new();
    proof {
        assert(0 * ((width - 1) as int) == 0) by (nonlinear_arith);
    }
    for r in 0..depth - 1
        invariant
            dims_wf(width, depth),
            indices@.len() == 6 * (r * ((width - 1) as int)),
            forall|j: int| 0 <= j < indices@.len() ==> indices@[j] == index_at(width as int, j),
    {
        for c in 0..width - 1
            invariant
                dims_wf(width, depth),
                r < depth - 1,
                indices@.len() == 6 * (r * ((width - 1) as int) + c),
                forall|j: int| 0 <= j < indices@.len() ==> indices@[j] == index_at(width as int, j),
        {
            proof {
                assert((r as int) * width + c + width + 1 <= width * depth) by (nonlinear_arith)
                    requires (r as int) < depth - 1 && (c as int) < width - 1 && 2 <= width && 2
                        <= depth;
            }
            let base: u32 = r * width + c;
            indices.push(base);
            indices.push(base + width);
            indices.push(base + 1);
            indices.push(base + 1);
            indices.push(base + width);
            indices.push(base + width + 1);
            proof {
                assert((r as int) * ((width - 1) as int) >= 0) by (nonlinear_arith)
                    requires (r as int) >= 0 && ((width - 1) as int) >= 0;
                let k = (r as int) * ((width - 1) as int) + (c as int);
                let j0 = 6 * k;
                lemma_fundamental_div_mod_converse_div(k, (width - 1) as int, r as int, c as int);
                lemma_fundamental_div_mod_converse_mod(k, (width - 1) as int, r as int, c as int);
                lemma_fundamental_div_mod_converse_div(j0, 6, k, 0);
                lemma_fundamental_div_mod_converse_mod(j0, 6, k, 0);
                lemma_fundamental_div_mod_converse_div(j0 + 1, 6, k, 1);
                lemma_fundamental_div_mod_converse_mod(j0 + 1, 6, k, 1);
                lemma_fundamental_div_mod_converse_div(j0 + 2, 6, k, 2);
                lemma_fundamental_div_mod_converse_mod(j0 + 2, 6, k, 2);
                lemma_fundamental_div_mod_converse_div(j0 + 3, 6, k, 3);
                lemma_fundamental_div_mod_converse_mod(j0 + 3, 6, k, 3);
                lemma_fundamental_div_mod_converse_div(j0 + 4, 6, k, 4);
                lemma_fundamental_div_mod_converse_mod(j0 + 4, 6, k, 4);
                lemma_fundamental_div_mod_converse_div(j0 + 5, 6, k, 5);
                lemma_fundamental_div_mod_converse_mod(j0 + 5, 6, k, 5);
                assert(indices@.len() == j0 + 6);
                assert(forall|j: int|
                    j0 <= j < j0 + 6 ==> indices@[j] == index_at(width as int, j));
            }
        }
        proof {
            assert((r + 1) * ((width - 1) as int) == r * ((width - 1) as int) + ((width - 1) as int))
                by (nonlinear_arith);
        }
    }
    proof {
        assert(((depth - 1) as int) * ((width - 1) as int) == ((width - 1) as int) * ((depth
            - 1) as int)) by (nonlinear_arith);
    }
    indices
}

/// Combines the sampled coordinates and their order-matched elevations into
/// the final topology: one vertex per coordinate in sampling order, and the
/// full triangle list of the grid, every entry of which addresses a vertex.
pub fn build_topology(
    cords: &Vec<GridCoordinate>,
    elevations: &Vec<i64>,
    width: u32,
    depth: u32,
    scale: u32,
) -> (t: Topology)
    requires
        dims_wf(width, depth),
        cords@.len() == width * depth,
        elevations@.len() == cords@.len(),
        1 <= scale,
    ensures
        t.vertices@.len() == width * depth,
        forall|i: int|
            0 <= i < t.vertices@.len() ==> t.vertices@[i] == vertex_at(
                cords@[i],
                elevations@[i],
                scale,
            ),
        t.indices@.len() == 6 * (((width - 1) as int) * ((depth - 1) as int)),
        forall|j: int| 0 <= j < t.indices@.len() ==> t.indices@[j] == index_at(width as int, j),
        forall|j: int| 0 <= j < t.indices@.len() ==> t.indices@[j] < t.vertices@.len(),
{
    let vertices = build_vertices(cords, elevations, scale);
    let indices = build_indices(width, depth);
    proof {
        assert forall|j: int| 0 <= j < indices@.len() implies indices@[j] < width * depth by {
            lemma_index_at_in_quad(width as int, depth as int, j);
        }
    }
    Topology { vertices, indices }
}

} // verus!
