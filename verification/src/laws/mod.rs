pub mod names;
pub mod requests;
pub mod roundtrip;
pub mod sweep;
