//! Collection of C header fragments and the documentation processing that
//! produces them, together with safe forms of the value-marshaling contracts
//! used at a C ABI boundary.

pub mod text;
pub mod registry;
pub mod content;
pub mod docstring;
pub mod metadata;
pub mod item;
pub mod passby;
