//! On-demand HLS segmenting: stream variants and segment names as requests
//! give them, segment boundaries and media playlists computed from an
//! asset's timing metadata, a bounded pool of transcoding engines and a cache
//! of timing metadata.
use vstd::prelude::*;

pub mod cache;
pub mod digits;
pub mod error;
pub mod keyframes;
pub mod playlist;
pub mod pool;
pub mod segment_name;
pub mod service;
pub mod timeline;
pub mod variant;

verus! {

} // verus!
