//! Casting media to DLNA televisions.

pub mod bridge;
pub mod cast;
pub mod command;
pub mod console;
pub mod device;
pub mod discovery;
pub mod listing;
pub mod media;
pub mod number;
pub mod playback;
pub mod select;
pub mod size;
pub mod soap;
pub mod text;
pub mod weburl;
pub mod xml;
