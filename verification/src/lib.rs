//! Shape inference for JSON-like data: a small algebra of shapes (types of
//! values) and the "common preferred shape" operation that joins two shapes
//! into one that describes the values of both.

pub mod model;
pub mod shape;
pub mod preferred;
pub mod message;
pub mod laws;

pub use message::FuckOff;
pub use model::ShapeModel;
pub use preferred::common_preferred_shape;
pub use shape::{AnyShape, CollectionShape, RecordShape, Shape};
