//! Decoding of EXIF metadata directories held in JPEG and RAW image files.

pub mod error;
pub mod traits;
pub mod parsing;
pub mod exif;
pub mod helpers;
pub mod common;
pub mod fuji;
pub mod theorems;
pub mod encoding;
