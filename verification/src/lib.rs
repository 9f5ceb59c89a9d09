//! The verified core of a ray tracer's render pipeline.
//!
//! A render casts rays through the pixels of an image into a scene of
//! objects, follows each ray from surface to surface, and turns the light that
//! comes back into bytes. This library holds what in that work is decided over
//! whole numbers and over order, and proves it:
//!
//! - [`image`]: the buffer of RGBA pixels that a render fills;
//! - [`color`]: from a colour channel to its byte;
//! - [`interval`]: ranges of distances along a ray;
//! - [`scene`]: which of an object's two crossings counts as the hit, and
//!   which object of a scene is hit first;
//! - [`tracer`]: how deep a ray is followed, how the samples of a pixel add
//!   up, and how the pixels of an image are filled;
//! - [`key`]: the whole numbers by which all of these order real quantities.
//!
//! It does no arithmetic on real quantities. Rays and colours are types of
//! the caller, and the geometry and the shading that work on them come in as
//! functions. Where the library has to compare two distances, or to cut a
//! channel to a byte, it takes them as keys: whole numbers in the order of the
//! quantities they stand for.

pub mod color;
pub mod image;
pub mod interval;
pub mod key;
pub mod scene;
pub mod tracer;

pub use color::{as_rgb, as_rgba, channel_byte};
pub use image::{Image, Rgba};
pub use interval::Interval;
pub use key::{bits_of_key, is_number, key_of_bits};
pub use scene::{does_hit_object, find_nearest_hit, select_root, NearestHit, Roots};
pub use tracer::{
    calculate_color, cast_ray, render_image, sample_pixel, Bounce, RenderOptions,
};
