//! Shape-tagged, flat-storage multidimensional arrays.
//!
//! An [`Array`] couples a shape (the size of each dimension) with the
//! row-major sequence of its elements and a flag that records whether the
//! elements may end in padding. Every operation is stated over the array's
//! view and proved against it.

pub mod array;
pub mod arrayish;
pub mod compare;
pub mod convert;
pub mod fill;
pub mod format;
pub mod model;
pub mod order;
pub mod row;
pub mod rows;
pub mod rows_mut;
pub mod shape;
pub mod text;
pub mod value;

pub use array::Array;
pub use arrayish::Arrayish;
pub use model::ArrayView;
pub use row::Row;
pub use value::{ArrayValue, Byte};
