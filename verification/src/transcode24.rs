//! Listing the FLAC files that the 24-bit conversion works on: the same
//! listing as `media_identification::identify_flac_files`. The rates a
//! 24-bit file is converted to are `transcoding::downsample_target`.
pub use crate::media_identification::identify_flac_files;
