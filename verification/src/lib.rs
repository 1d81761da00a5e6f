//! A shell prompt built from components: each component reads what it needs
//! (the working directory, version control state, tool versions), renders
//! colored segments, and the segments are laid out into prompt lines, with
//! an align marker sending what follows to the right edge.
pub mod annotations;
pub mod args;
pub mod color;
pub mod component;
pub mod components;
pub mod layout;
pub mod registry;
pub mod text;
pub mod width;
