pub mod text;
pub mod number;
pub mod location;
pub mod mill;
pub mod program;
pub mod parser;
