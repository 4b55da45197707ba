//! A dense two-dimensional matrix of bits, stored row-major in one packed
//! `bitvec` buffer.
//!
//! Cell `(i, j)` of a `height` by `width` matrix is bit `i * width + j` of the
//! buffer. Reads and writes go through `get`, `set`, `row`, `set_all` and the
//! traversals; every operation is proved against the model `MatrixView`.

mod bits;
pub mod laws;
mod matrix;

pub use bits::{max_bits, Storage};
pub use matrix::{decoded, digit, row_text, text_upto, BitMatrix, MatrixView, Row, RowMut};
