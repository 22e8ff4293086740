//! Verified codecs for the metadata blobs that Serato DJ embeds in audio
//! files: the `Serato Analysis`, `Serato Markers2` and `Serato RelVolAd`
//! tag payloads, with their envelope conventions.

pub mod error;
pub mod util;
pub mod color;
pub mod generic;
pub mod enveloped;
pub mod analysis;
pub mod relvolad;
pub mod markers2;
