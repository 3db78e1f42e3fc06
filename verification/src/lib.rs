//! A builder for graph-database queries: query text put together from
//! fragments, with placeholders filled in when the text is built.

pub mod foreign;
pub mod node_builder;
pub mod prelude;
pub mod query_text;
pub mod querybuilder;
pub mod schema;
pub mod segment;
pub mod text;
