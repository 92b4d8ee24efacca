pub mod entry;
pub mod model;
pub mod http;
