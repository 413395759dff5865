//! BlueWren: the verified core of a one-to-one encrypted text chat.
pub mod cli;
mod entropy;
pub mod frame;
pub mod pairing;
pub mod sanitize;
pub mod session;
