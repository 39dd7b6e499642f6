//! A WebSub subscriber: the rules of the protocol as verified functions.

pub mod db;
pub mod feed;
pub mod hub;
pub mod signature;
pub mod subscriber;
pub mod util;
