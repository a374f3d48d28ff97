pub mod handler;
pub mod multi_key;
pub mod router;
