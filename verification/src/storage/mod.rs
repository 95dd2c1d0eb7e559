pub mod decode;
pub mod encode;
pub mod hash;
pub mod index;
pub mod store;
pub mod value;
