//! Verified core of a 3D FDTD (Yee grid) electromagnetic solver: grid layout
//! and indexing, the six field components and their update stencils,
//! absorbing-boundary band geometry, voxel-to-grid mapping, probes and run
//! control, the index-level steps of resonance and reflection analysis, the
//! parsers that select planes, units and colormaps, and the acoustic media
//! of the transducer model.

pub mod acoustic;
pub mod fields;
pub mod grid;
pub mod parse;
pub mod pml;
pub mod probes;
pub mod spectrum;
pub mod voxel;
