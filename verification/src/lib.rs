//! Verified core of a terminal client for Bilibili: the live-room wire
//! protocol, response models and the decisions the client makes on them.

pub mod api;
pub mod html;
pub mod json;
pub mod navigation;
pub mod playback;
pub mod player;
pub mod proxy;
pub mod text;
pub mod url;
