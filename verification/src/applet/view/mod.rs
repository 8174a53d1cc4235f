pub mod details;
pub mod history;
pub mod settings;
