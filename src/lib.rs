pub mod attr;
pub mod display;
pub mod driver;
pub mod error;
pub mod model;
pub mod text;
