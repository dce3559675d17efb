//! Verified core of a batch image-watermarking tool: VRChat metadata scanning,
//! ICC/EXIF transplanting into exported PNGs, file naming rules, decoding and
//! encoding of rasters, placement anchors and the trimming of raster
//! watermarks.

pub mod text;
pub mod vrchat;
pub mod paths;
pub mod decode;
pub mod metadata;
pub mod placement;
pub mod preview;
pub mod commands;
pub mod export;
pub mod settings;
pub mod state;
pub mod watermark;
