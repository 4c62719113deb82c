//! Mapping engine between declared record/enumeration shapes and a key-value
//! store's wire values: name transformation under declarative renaming rules,
//! and shape-directed encoding and decoding with a full error taxonomy.
pub mod args;
pub mod attrs;
pub mod decode;
pub mod encode;
pub mod errors;
pub mod laws;
pub mod names;
pub mod numeric;
pub mod schema;
pub mod text;
pub mod values;
pub mod wire;
