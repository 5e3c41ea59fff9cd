pub mod b64;
pub mod crypto;
pub mod errors;
pub mod hashing;
pub mod io;
pub mod models;
pub mod store;
