//! Fillable-form layer over a structured document object graph: it locates the terminal fields
//! of a document's field tree, classifies them, decodes and validates their state, writes new
//! values, and regenerates the drawing instructions that render a text field's value.

pub mod object;
pub mod field;
pub mod walk;
pub mod form;
pub mod appearance;
pub mod laws;
