//! Decoder for `.ark` survival-game save files: a little-endian, offset-indexed,
//! tagged property-graph format with an interned name table, a flat object
//! directory, and compressed "cryopod" mini-saves embedded in item properties.

pub mod decode;
pub mod error;
pub mod export;
pub mod names;
pub mod numeric;
pub mod objects;
pub mod properties;
pub mod reader;
pub mod savefile;
pub mod strings;

pub use error::ArkError;
pub use names::{Name, Names};
pub use objects::{Location, Object, Type};
pub use savefile::{ArkParser, CryopodParser, Entry};
pub use export::{BabyRecord, TamedRecord, WildRecord};
pub use properties::{Properties, Property, PropertyGroup, Value};
pub use reader::ArrayReader;
