//! Script-driven animation of 3D models: the binary model and animation
//! formats, the command table, the animation script machine, the ordering
//! of projected polygon corners and the decisions of the viewer's frame loop.

pub mod animation;
pub mod camera;
pub mod filer;
pub mod frame;
pub mod script_laws;
pub mod vars;
