pub mod health;
pub mod metrics;
pub mod prometheus;
