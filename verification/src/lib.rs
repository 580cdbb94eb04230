pub mod client;
pub mod client_log;
pub mod codec;
pub mod entity;
pub mod futures_sub;
pub mod message;
pub mod pub_sub;
pub mod server;
pub mod spatial;
pub mod std_sub;
