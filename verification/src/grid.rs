//! Grid sampler: derives a fixed-resolution grid of geographic coordinates
//! covering a bounding box, in row-major order.
//!
//! Latitudes and longitudes are micro-degrees (degrees times one million),
//! held as `i64`, so that the linear interpolation of the bounding box is
//! exact integer arithmetic. The interpolation deliberately divides by the
//! grid dimension itself rather than by `dimension - 1`, so the last column
//! (respectively row) stops strictly short of the far edge of the box; the
//! rest of the pipeline relies on exactly this convention.

use vstd::prelude::*;
use vstd::arithmetic::div_mod::lemma_div_pos_is_pos;
use vstd::arithmetic::div_mod::lemma_fundamental_div_mod_converse_div;
use vstd::arithmetic::div_mod::lemma_fundamental_div_mod_converse_mod;
use vstd::arithmetic::div_mod::lemma_multiply_divide_le;
use vstd::arithmetic::div_mod::lemma_multiply_divide_lt;

verus! {

/// Widest legal longitude in micro-degrees (180 degrees).
pub const MAX_ABS_LONGITUDE: i64 = 180_000_000;

/// Widest legal latitude in micro-degrees (90 degrees).
pub const MAX_ABS_LATITUDE: i64 = 90_000_000;

/// A geographic region, in micro-degrees.
#[derive(Clone, Copy, PartialEq, Eq, Structural, Debug)]
pub struct BoundingBox {
    pub min_lat: i64,
    pub max_lat: i64,
    pub min_lon: i64,
    pub max_lon: i64,
}

impl BoundingBox {
    /// A usable box lies within the geographic range and spans a strictly
    /// positive extent on both axes.
    pub open spec fn wf(self) -> bool {
        &&& -MAX_ABS_LATITUDE <= self.min_lat < self.max_lat <= MAX_ABS_LATITUDE
        &&& -MAX_ABS_LONGITUDE <= self.min_lon < self.max_lon <= MAX_ABS_LONGITUDE
    }

    /// Runtime check matching `wf`.
    pub fn is_wf(&self) -> (r: bool)
        ensures
            r == self.wf(),
    {
        -MAX_ABS_LATITUDE <= self.min_lat && self.min_lat < self.max_lat
            && self.max_lat <= MAX_ABS_LATITUDE && -MAX_ABS_LONGITUDE <= self.min_lon
            && self.min_lon < self.max_lon && self.max_lon <= MAX_ABS_LONGITUDE
    }
}

/// One lattice point: its integer grid position and its geographic
/// coordinates in micro-degrees.
#[derive(Clone, Copy, PartialEq, Eq, Structural, Debug)]
pub struct GridCoordinate {
    pub grid_x: u32,
    pub grid_z: u32,
    pub longitude: i64,
    pub latitude: i64,
}

/// Why sampling was refused.
#[derive(Clone, Copy, PartialEq, Eq, Structural, Debug)]
pub enum SamplingError {
    /// A grid dimension is below two, or the grid has more cells than an
    /// index can address.
    InvalidDimensions,
    /// The bounding box is out of geographic range or spans no area.
    DegenerateBoundingBox,
}

/// The longitude sampled at column `x`: `min_lon + (max_lon - min_lon) * x / width`.
pub open spec fn lon_at(b: BoundingBox, width: int, x: int) -> int {
    b.min_lon + (b.max_lon - b.min_lon) * x / width
}

/// The latitude sampled at row `z`: latitude runs from `max_lat` at the top
/// row down towards `min_lat`: `min_lat + (max_lat - min_lat) * (depth - z) / depth`.
pub open spec fn lat_at(b: BoundingBox, depth: int, z: int) -> int {
    b.min_lat + (b.max_lat - b.min_lat) * (depth - z) / depth
}

/// The coordinate at row-major position `i` of a `width`-column grid.
pub open spec fn cord_at(b: BoundingBox, width: int, depth: int, i: int) -> GridCoordinate {
    GridCoordinate {
        grid_x: (i % width) as u32,
        grid_z: (i / width) as u32,
        longitude: lon_at(b, width, i % width) as i64,
        latitude: lat_at(b, depth, i / width) as i64,
    }
}

/// Dimensions are usable when both are at least two and the cell count fits
/// in a `u32` index.
pub open spec fn dims_wf(width: u32, depth: u32) -> bool {
    &&& 2 <= width
    &&& 2 <= depth
    &&& width * depth <= u32::MAX
}

/// The sampled longitude never reaches the box's east edge: the divisor is
/// the column count itself, so even the last column stops short of `max_lon`.
pub proof fn lemma_lon_in_range(b: BoundingBox, width: int, x: int)
    requires
        b.wf(),
        1 <= width,
        0 <= x < width,
    ensures
        b.min_lon <= lon_at(b, width, x) < b.max_lon,
{
    let span = b.max_lon - b.min_lon;
    lemma_div_pos_is_pos(span * x, width);
    assert(span * x >= 0) by (nonlinear_arith)
        requires span > 0 && x >= 0;
    assert(span * x < width * span) by (nonlinear_arith)
        requires span > 0 && 0 <= x < width;
    lemma_multiply_divide_lt(span * x, width, span);
}

/// The sampled latitude stays within the box and reaches `max_lat` exactly
/// at the top row.
pub proof fn lemma_lat_in_range(b: BoundingBox, depth: int, z: int)
    requires
        b.wf(),
        1 <= depth,
        0 <= z < depth,
    ensures
        b.min_lat <= lat_at(b, depth, z) <= b.max_lat,
        z == 0 ==> lat_at(b, depth, z) == b.max_lat,
{
    let span = b.max_lat - b.min_lat;
    let dz = depth - z;
    assert(span * dz > 0) by (nonlinear_arith)
        requires span > 0 && dz > 0;
    assert(span * dz <= depth * span) by (nonlinear_arith)
        requires span > 0 && 0 < dz <= depth;
    lemma_multiply_divide_le(span * dz, depth, span);
    lemma_div_pos_is_pos(span * dz, depth);
    if z == 0 {
        assert(span * depth / depth == span) by {
            vstd::arithmetic::div_mod::lemma_div_multiples_vanish(span, depth);
            vstd::arithmetic::mul::lemma_mul_is_commutative(span, depth);
        }
    }
}

/// Samples `width * depth` grid coordinates in row-major order (outer loop
/// over rows, inner loop over columns), linearly interpolating the bounding
/// box; rejects unusable dimensions or boxes before doing any work.
pub fn calc_cords(width: u32, depth: u32, b: &BoundingBox) -> (r: Result<
    Vec<GridCoordinate>,
    SamplingError,
>)
    ensures
        r is Ok <==> dims_wf(width, depth) && b.wf(),
        r == Err::<Vec<GridCoordinate>, SamplingError>(SamplingError::InvalidDimensions) <==> !dims_wf(
            width,
            depth,
        ),
        r == Err::<Vec<GridCoordinate>, SamplingError>(SamplingError::DegenerateBoundingBox) <==> (
        dims_wf(width, depth) && !b.wf()),
        r is Ok ==> r.unwrap()@.len() == width * depth,
        r is Ok ==> forall|i: int|
            0 <= i < width * depth ==> r.unwrap()@[i] == cord_at(*b, width as int, depth as int, i),
{
    proof {
        assert((width as int) * (depth as int) <= 0xffff_ffff * 0xffff_ffff) by (nonlinear_arith)
            requires width <= u32::MAX && depth <= u32::MAX;
    }
    let cells: u64 = (width as u64) * (depth as u64);
    if width < 2 || depth < 2 || cells > u32::MAX as u64 {
        return Err(SamplingError::InvalidDimensions);
    }
    if !b.is_wf() {
        return Err(SamplingError::DegenerateBoundingBox);
    }

    let lon_span: u64 = (b.max_lon - b.min_lon) as u64;
    let lat_span: u64 = (b.max_lat - b.min_lat) as u64;

    let mut cords: Vec<GridCoordinate> = Vec::new();
    proof {
        assert(0 * width == 0) by (nonlinear_arith);
    }
    for z in 0..depth
        invariant
            dims_wf(width, depth),
            b.wf(),
            lon_span == b.max_lon - b.min_lon,
            lat_span == b.max_lat - b.min_lat,
            cords@.len() == z * width,
            forall|i: int|
                0 <= i < cords@.len() ==> cords@[i] == cord_at(*b, width as int, depth as int, i),
    {
        proof {
            assert(z * width + width <= width * depth) by (nonlinear_arith)
                requires z < depth;
        }
        for x in 0..width
            invariant
                dims_wf(width, depth),
                b.wf(),
                z < depth,
                lon_span == b.max_lon - b.min_lon,
                lat_span == b.max_lat - b.min_lat,
                cords@.len() == z * width + x,
                z * width + width <= width * depth,
                forall|i: int|
                    0 <= i < cords@.len() ==> cords@[i] == cord_at(
                        *b,
                        width as int,
                        depth as int,
                        i,
                    ),
        {
            proof {
                assert(lon_span * x <= lon_span * width) by (nonlinear_arith)
                    requires x <= width;
                assert(lon_span * width <= 360_000_000u64 * u32::MAX) by (nonlinear_arith)
                    requires lon_span <= 360_000_000u64 && width <= u32::MAX;
                lemma_multiply_divide_le(lon_span as int * x as int, width as int, lon_span as int);
                lemma_div_pos_is_pos(lon_span as int * x as int, width as int);
            }
            let lon_off: u64 = lon_span * (x as u64) / (width as u64);
            let longitude: i64 = b.min_lon + (lon_off as i64);

            let dz: u64 = (depth - z) as u64;
            proof {
                assert(lat_span * dz <= lat_span * depth) by (nonlinear_arith)
                    requires dz <= depth;
                assert(lat_span * depth <= 180_000_000u64 * u32::MAX) by (nonlinear_arith)
                    requires lat_span <= 180_000_000u64 && depth <= u32::MAX;
                lemma_multiply_divide_le(lat_span as int * dz as int, depth as int, lat_span as int);
                lemma_div_pos_is_pos(lat_span as int * dz as int, depth as int);
            }
            let lat_off: u64 = lat_span * dz / (depth as u64);
            let latitude: i64 = b.min_lat + (lat_off as i64);

            proof {
                let i = z * width + x;
                lemma_fundamental_div_mod_converse_div(i as int, width as int, z as int, x as int);
                lemma_fundamental_div_mod_converse_mod(i as int, width as int, z as int, x as int);
                assert(longitude == lon_at(*b, width as int, x as int));
                assert(latitude == lat_at(*b, depth as int, z as int));
            }
            cords.push(GridCoordinate { grid_x: x, grid_z: z, longitude, latitude });
        }
        proof {
            assert((z + 1) * width == z * width + width) by (nonlinear_arith);
        }
    }
    proof {
        vstd::arithmetic::mul::lemma_mul_is_commutative(depth as int, width as int);
    }
    Ok(cords)
}

} // verus!
