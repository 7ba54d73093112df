//! Todo entities, the folding of joined todo/label rows into entities,
//! payload validation, and an in-memory todo repository.

pub mod error;
pub mod fold;
pub mod label;
pub mod memory;
pub mod todo;
pub mod validation;
