//! Colour transforms on RGBA8 pixel buffers, in an exact integer model of
//! the Hue-Saturation-Lightness colour space.
//!
//! Samples are read as sRGB-encoded bytes and taken to HSL directly, without
//! decoding the gamma first: a perceptual choice, not a colorimetric one.
//! Saturation is multiplied by four and clamped to one before the colour is
//! rebuilt, and each rebuilt channel is rounded to the nearest byte, halves
//! rounding up.
//!
//! `hsl` holds the model of one pixel and the laws it obeys;
//! `transform_colors` applies it to whole buffers. The hue stretch needs
//! trigonometry, which is left to the caller: `color_stretch` hands each
//! pixel's exact hue to a function of the caller's and uses the hue it gives
//! back. `image` and `session` hold what the views around the transforms
//! decide: captions, download names, canvas sizes, and the loading of an image.
pub mod hsl;
pub mod image;
pub mod session;
pub mod transform_colors;
