pub mod arrays;
pub mod camera;
pub mod gui;
pub mod renderer;
pub mod renderer_settings;
pub mod rigid_body;
pub mod scalar;
pub mod transform;
