//! Bilibili API models and the logic that runs on them.

pub mod article;
pub mod candidates;
pub mod catalog;
pub mod client;
pub mod dynamic;
pub mod cdn;
pub mod favorite;
pub mod history;
pub mod live;
pub mod live_client;
pub mod live_ws;
pub mod recommend;
pub mod requests;
pub mod responses;
pub mod space;
pub mod video;
