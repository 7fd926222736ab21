use vstd::prelude::*;

verus! {

/// What the header of a RAW image file describes.
pub struct ImageFile {
    pub format: String,
    pub version: String,
    pub model: String,
    pub identifier: String,
    pub jpeg: Jpeg,
}

/// The JPEG preview embedded in a RAW image file.
pub struct Jpeg {
    pub bytes: Vec<u8>,
}

/// The sensor data held in a RAW image file.
#[derive(Debug)]
pub struct RAW {
    pub bytes: Vec<u8>,
}

} // verus!
