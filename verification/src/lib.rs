//! A compact capability database for receipt printers: a sorted,
//! integer-keyed lookup structure queried at runtime, the model types it
//! stores (profiles, encodings, fonts, colors, media), and the generation
//! pipeline that resolves a raw database into deterministic static
//! declarations.

pub mod db;
pub mod emit;
pub mod features;
pub mod int_map;
pub mod profile;
pub mod schema;
pub mod units;

pub use crate::features::FeatureRegistry;
pub use crate::features::Features;
pub use crate::int_map::IntMap;
pub use crate::int_map::IntMapIter;
pub use crate::int_map::OwnedIntMap;
pub use crate::profile::Color;
pub use crate::profile::Encoding;
pub use crate::profile::FontInfo;
pub use crate::profile::Media;
pub use crate::profile::Profile;
pub use crate::profile::ProfileTable;
pub use crate::profile::Width;
pub use crate::schema::MaybeUnknown;
