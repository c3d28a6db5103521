pub mod config;
pub mod task;
pub mod transfer;

pub use config::Config;
pub use task::Task;
pub use task::Url;
pub use transfer::Transfer;
