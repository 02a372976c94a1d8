//! Logic of the interactive viewer: its hashcode tables, the text it shows,
//! and the choices it makes while drawing.
pub mod hashcodes;
pub mod render;
pub mod text;
