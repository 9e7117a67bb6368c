pub mod dom;
pub mod extract;
pub mod parse;
pub mod query;
pub mod text;
