//! Terrain-mesh generation: samples a regular grid of geographic coordinates
//! over a bounding box, partitions the grid into bounded batches for an
//! external elevation provider, reassembles the returned elevations in
//! original order, and builds a triangulated vertex/index topology.
//!
//! Geographic coordinates are carried as exact integers in micro-degrees, and
//! vertex heights as exact rationals (elevation over a scale divisor), so that
//! every numeric step of the pipeline is stated and proved exactly.

mod encode;
mod fetch;
mod grid;
mod mesh;
mod pipeline;

pub use pipeline::assemble_topology;
pub use pipeline::batch_len;
pub use pipeline::lemma_batch_at_len;
pub use pipeline::lemma_batch_bounds;
pub use pipeline::lemma_batch_of_position;
pub use pipeline::lemma_batches_total_len;
pub use pipeline::lemma_height_of_position;

pub use encode::cord_bytes;
pub use encode::dec_digits;
pub use encode::digit_byte;
pub use encode::encode_locations;
pub use encode::frac_digits;
pub use encode::locations_bytes;
pub use encode::micro_bytes;

pub use fetch::Arrival;
pub use fetch::ConsistencyError;
pub use fetch::FetchErrorKind;
pub use fetch::FetchFailure;
pub use fetch::TerrainError;
pub use fetch::arrival_for;
pub use fetch::arrival_key;
pub use fetch::arrivals_wf;
pub use fetch::assemble_elevations;
pub use fetch::batch_at;
pub use fetch::batch_count;
pub use fetch::batch_matches;
pub use fetch::batch_ok;
pub use fetch::concat_all;
pub use fetch::has_arrival;
pub use fetch::lemma_arrival_order_irrelevant;
pub use fetch::payload_of;
pub use fetch::payloads;
pub use fetch::split_batches;

pub use mesh::Topology;
pub use mesh::Vertex;
pub use mesh::build_indices;
pub use mesh::build_topology;
pub use mesh::build_vertices;
pub use mesh::index_at;
pub use mesh::lemma_index_at_in_quad;
pub use mesh::quad_col;
pub use mesh::quad_of;
pub use mesh::quad_row;
pub use mesh::vertex_at;

pub use grid::BoundingBox;
pub use grid::GridCoordinate;
pub use grid::MAX_ABS_LATITUDE;
pub use grid::MAX_ABS_LONGITUDE;
pub use grid::SamplingError;
pub use grid::calc_cords;
pub use grid::cord_at;
pub use grid::dims_wf;
pub use grid::lat_at;
pub use grid::lemma_lat_in_range;
pub use grid::lemma_lon_in_range;
pub use grid::lon_at;
