//! A small WebGL2 renderer: a vertical row of point-like wave sources, painted
//! by a fragment shader over a quad that fills the canvas.
//!
//! The library sets the wave program up on a rendering context
//! ([`webgl_manager::WebglManager::new`]), computes for each frame the numbers
//! that the shaders receive and the calls that hand them over
//! ([`webgl_manager::WebglManager::draw_frame`]), and keeps the canvas square
//! ([`webgl_manager::WebglManager::resize`]).
//!
//! Single-precision numbers are held as their IEEE-754 bit patterns
//! ([`scalar::Scalar`]). Their arithmetic is done on the patterns
//! ([`arithmetic`]) and rounds to the nearest number, a tie to the even
//! pattern, as the arithmetic of the single-precision type does ([`laws`]).

pub mod app;
pub mod arithmetic;
pub mod error;
pub mod frame;
pub mod gl;
pub mod laws;
pub mod layout;
pub mod nearest;
pub mod quad;
pub mod rounding;
pub mod scalar;
pub mod setup;
pub mod shaders;
pub mod uniforms;
pub mod webgl_manager;

pub use scalar::Scalar;
