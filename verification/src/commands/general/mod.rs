pub mod del;
pub mod exist;
pub mod flushdb;
pub mod get;
pub mod hello;
pub mod info;
pub mod keys;
pub mod mget;
pub mod mset;
pub mod ping;
pub mod set;
