//! DAAP/DMAP metadata encoding for RAOP.
pub mod dmap;
pub mod metadata;

pub use dmap::{DmapEncoder, DmapTag};
pub use metadata::{MetadataBuilder, TrackMetadata};
