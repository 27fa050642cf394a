//! Reading and writing of uncrewed-vehicle recordings: a point-cloud map and a
//! time-stamped pose trajectory, decoded from Bag or MCAP message payloads and
//! stored in the text-plus-binary UVT container.
//!
//! Floating-point values never enter this crate as numbers: coordinates and
//! orientations are carried as their IEEE-754 bit patterns, and trajectory
//! values of the UVT table as their text.
pub mod bag;
pub mod deserialization;
pub mod error;
pub mod hexdump;
pub mod mcap;
pub mod pointcloud;
pub mod pose;
pub mod recording;
pub mod text;
pub mod text_lemmas;
pub mod trajectory;
pub mod uvt;
pub mod wire;
