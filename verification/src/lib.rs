//! Builds the numeric model a wave-function-collapse solver needs from a
//! declarative tile-set description: a global enumeration of concrete tile
//! orientations, a per-orientation table of the eight elementary symmetry
//! operations, and directed adjacency edges expanded across all compass
//! directions.

pub mod loader;
pub mod option_ext;
pub mod symmetry;
pub mod text;
pub mod tileset;

pub use loader::load_tileset;
pub use loader::NeighKind;
pub use loader::ParseError;
pub use loader::TileEvent;
pub use loader::Warning;
pub use loader::XmlParser;
pub use loader::XmlState;
pub use tileset::AdjacencyEdge;
pub use tileset::Direction;
pub use tileset::NameEntry;
pub use tileset::RegisterOutcome;
pub use tileset::Tile;
pub use tileset::Tileset;

pub use option_ext::lift2;
pub use option_ext::lift3;
pub use symmetry::SymmetryClass;
