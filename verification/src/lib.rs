//! Verified core of an exporter that turns the albums of an iPhoto library
//! (its `AlbumData.xml` property list) into a folder tree that newer photo
//! applications can import.

pub mod text;
pub mod model;
pub mod filter;
pub mod paths;
pub mod iphoto;
pub mod hash;
pub mod info;
pub mod exiv2;
pub mod export;
pub mod details;
pub mod opts;
pub mod progress;
