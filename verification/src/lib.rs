//! Descriptor pools for protobuf reflection: building, validating and querying
//! the type definitions of a set of `.proto` files.
pub mod text;
pub mod names;
pub mod tag;
pub mod types;
pub mod definition;
pub mod resolve;
pub mod kind;
pub mod pool;
pub mod error;
pub mod visit;
pub mod ty;
pub mod options;
pub mod collect;
pub mod link;
pub mod api;
pub mod descriptor;
pub mod builder;
pub mod fits;
pub mod derive;
pub mod paths;
pub mod wf;
pub mod codec;
