//! A small publish/subscribe messaging protocol over datagrams: the wire
//! codec, and the subscription registry that decides where each published
//! message goes.
pub mod protocol;
pub mod server;
