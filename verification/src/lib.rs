//! Consolidation of an FPGA fabric model into one normalized device-resources
//! document: interned names, deduplicated site types, flattened routing nodes
//! and resolved package pins.

pub mod cells;
pub mod device;
pub mod document;
pub mod error;
pub mod fabric;
pub mod interner;
pub mod luts;
pub mod nodes;
pub mod packages;
pub mod site_records;
pub mod site_types;
pub mod text;
pub mod tile_types;
pub mod tiles;
pub mod transport;
pub mod widths;

pub use document::Document;
pub use error::WriteError;
pub use fabric::{Fabric, PadTable, PinMap};
pub use interner::Interner;
pub use site_types::SiteTypeTable;
