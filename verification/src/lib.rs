//! A terminal 3D renderer's integer core: screen buffers, ANSI colour
//! reduction and dithering, keyboard state, terminal frame bookkeeping,
//! triangle clipping decisions and the OBJ/MTL model file parsers.
pub mod buffer;
pub mod graphics;
pub mod renderer;
pub mod keyboard;
pub mod terminal;
pub mod geometry;
pub mod camera;
pub mod text;
pub mod models;
