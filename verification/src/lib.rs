//! A path-tracing renderer over fixed-point arithmetic.
//!
//! A scene is a camera and a set of shapes under a bounding-volume
//! hierarchy. A render sends rays through every pixel, follows each from
//! bounce to bounce until it leaves the scene, meets a light or runs out of
//! depth, and adds the colours that come back to a framebuffer.
//!
//! All numbers are [`scalar::Real`]s: integers that count units of two to
//! the minus twenty, with arithmetic that rounds down and saturates. What a
//! function computes is therefore a matter of integers, and its contract says
//! which.
//!
//! # The range of the numbers
//!
//! A `Real` lies between minus and plus [`scalar::INFINITY`], which stands
//! for 1024: that is where arithmetic saturates, and what every `wf` asks of
//! coordinates, directions and distances. The bound itself counts as
//! infinite. So a scene has to fit the cube from -1024 to 1024 along every
//! axis, a ray finds no hit at a distance of 1024 or more along its
//! direction, and the smallest step of any quantity is about a millionth.
//! Colours may exceed one, up to the same bound. These are limits of the
//! number format and of nothing else; a scene in other units is scaled
//! before it is handed over.
pub mod antialias;
pub mod camera;
pub mod constants;
pub mod framebuffer;
pub mod geometry;
pub mod hit_record;
pub mod material;
pub mod math;
pub mod render;
pub mod sampling;
pub mod scalar;
pub mod scene;
pub mod texture;

pub use antialias::AntialiasMethod;
pub use framebuffer::Framebuffer;
pub use render::{render, render_pixel};
pub use scalar::Real;
pub use scene::Scene;
