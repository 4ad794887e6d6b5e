pub mod base_file;
pub mod cli;
pub mod dates;
pub mod error;
pub mod expr;
pub mod filter;
pub mod output;
pub mod query;
pub mod sort_order;
pub mod table;
pub mod text;
pub mod vault;
pub mod yaml;
