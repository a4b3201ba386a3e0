pub mod text;
pub mod paths;
pub mod media_identification;
pub mod transcode24;
pub mod transcoding;
pub mod spectrogram;
pub mod album;
