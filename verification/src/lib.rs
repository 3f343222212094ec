//! Re-packages a raster image together with an optional free-text
//! annotation into a lossless chunked container: the annotation is carried
//! as a user comment inside a TIFF/EXIF metadata block, which is spliced
//! into the container next to the compressed pixel bitstream.

pub mod bytes;
pub mod exif;
pub mod image;
