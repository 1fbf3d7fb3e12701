pub mod error;
pub mod line;
pub mod text;

pub use error::Error;
pub use line::parse_line;
pub use text::parse;
