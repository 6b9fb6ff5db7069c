//! A hexagonal world map split into country territories: the axial/offset
//! hex coordinate system, the height/vegetation raster decoder and terrain
//! mesh, the per-hex country grid with its run-length codec, and the border
//! tracer that turns the grid into closed wall loops.

pub mod assets;
pub mod border;
pub mod error;
pub mod events;
pub mod height_map;
pub mod hex;
pub mod hot_reload;
pub mod layout;
pub mod server;
pub mod territories;
pub mod world;
