//! Streaming, line-by-line reader and writer for Wavefront OBJ files.
//!
//! [`ObjLineReader`] reads an OBJ file one line at a time into
//! [`Directive`]s (or the [`ObjError`] of the line that does not read),
//! and the `*_line` functions write each directive as one line. What the
//! writer writes, the reader reads back unchanged (see [`laws`]).
//!
//! Indices follow the Wavefront convention and are kept 1-based throughout.
use vstd::prelude::*;

pub mod directive;
pub mod error;
pub mod forms;
pub mod laws;
pub mod number;
pub mod parse;
pub mod text;
pub mod write;

pub use directive::{Directive, SmoothingGroup};
pub use error::{unknown_prefix_error, ObjError, ParseErrorKind};
pub use parse::{number_fields, parse_line, parse_line_with, ObjLineReader};
pub use write::{
    comment_line, face_line, group_line, line_element_line, material_lib_line, normal_line,
    object_name_line, point_element_line, smoothing_group_line, texture_coordinate_line,
    use_material_line, vertex_line,
};

verus! {

} // verus!
