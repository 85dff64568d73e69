//! Voronoi diagrams by Fortune's sweep, with the numeric kernel they rest on.
//!
//! The library is generic over its scalar type; `scalar` says what it takes
//! from that type and how the contracts speak of computed values.
//!
//! * The numeric kernel: `matrix` and `vector` with the views
//!   `row_matrix_view`, `sub_matrix_view`, `minor_matrix_view` and
//!   `transposed_matrix_view`, the solvers `linear` and `quadratic`, and
//!   `transform`.
//! * The geometric primitives: `geom`.
//! * The parts of the sweep: the subdivision under construction in `store`,
//!   the tree of arcs and breakpoints in `beachline`, the queue of `events`,
//!   and what can go wrong in `error`.
//! * The sweep itself, with the clipping of open half-edges and the closing of
//!   faces along the bounding rectangle: `voronoi`.
//! * The finished subdivision, its invariant and its triangulation: `dcel`.
//! * What the kernel computes over a field: the premises in `field`, the
//!   theorem on linear systems in `elimination`, and the theorems on roots,
//!   intersections, circles and parabolas beside the functions they are about.

pub mod beachline;
pub mod dcel;
pub mod elimination;
pub mod error;
pub mod events;
pub mod field;
pub mod geom;
pub mod linear;
pub mod matrix;
pub mod minor_matrix_view;
pub mod quadratic;
pub mod row_matrix_view;
pub mod scalar;
pub mod store;
pub mod sub_matrix_view;
pub mod transform;
pub mod transposed_matrix_view;
pub mod vector;
pub mod voronoi;
