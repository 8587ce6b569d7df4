pub mod messaging;
pub mod posts;
pub mod premium;
pub mod profiles;
pub mod types;
