//! Column type inference for delimiter-tokenized tabular data.
//!
//! Raw text cells are classified lexically (float-shaped, integer-shaped,
//! boolean-shaped, or other), integer tokens are resolved to the narrowest
//! signed width that can represent them, and each column is assigned the
//! maximum rank observed over a bounded sample of its tokens. The column's
//! cells are then re-parsed against that rank into a typed, null-aware
//! buffer.

pub mod buffer;
pub mod classify;
pub mod column;
pub mod infer;
pub mod numeric;
pub mod rank;
