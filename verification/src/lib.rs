//! A verified model of the BeBytes binary layout: struct schemas made of
//! bit fields, primitives, arrays, options, vectors, strings, enums and
//! nested structs, with big- and little-endian encoders and decoders.

pub mod consts;
pub mod enums;
pub mod bits;
pub mod schema;
pub mod size_expr;
pub mod size_parse;
pub mod value;
pub mod codec;
pub mod encode;
pub mod decode;
pub mod roundtrip;
pub mod api;
pub mod optimize;
pub mod context;
pub mod validate;
pub mod resolve;
pub mod layout;
pub mod attrs;
pub mod types;
pub mod bounds;
pub mod sizes;
pub mod placement;
