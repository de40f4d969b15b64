//! A verified engine for image dithering and color quantization.
//!
//! The library transforms a rectangular grid of 8-bit RGB pixels in place,
//! using one of several strategies: a fixed luminance threshold, a random
//! per-pixel threshold, ordered (Bayer) dithering with a recursively built
//! threshold matrix, nearest-color palette quantization, and three
//! error-diffusion variants (monochrome two-tap, palette two-tap, and
//! monochrome Floyd-Steinberg).
//!
//! All luminance arithmetic is exact fixed-point: a luminance value is an
//! integer in ten-thousandths of a channel unit, so the perceptual weights
//! 0.2126, 0.7152 and 0.0722 become the integers 2126, 7152 and 722.
//! Error-diffusion residuals use the same fixed-point units, with halving
//! and sixteenth-parts rounded toward zero.

pub mod couleur;
pub mod grille;
pub mod palette;
pub mod seuillage;
pub mod aleatoire;
pub mod bayer;
pub mod diffusion;

pub use couleur::Pixel;
