pub mod hgetall;
pub mod hset;
