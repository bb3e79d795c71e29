//! A dense, row-major two-dimensional array stored in a single flat buffer,
//! together with a wrapping-index adapter that resolves signed, possibly
//! out-of-range row and column indices by modular arithmetic.

pub mod vec2d;
pub mod wrapping;

pub use vec2d::Vec2d;
pub use wrapping::WrappingVec2d;
pub use wrapping::wsize;
