pub mod ast;
pub mod lexer;
pub mod parser;
pub mod plan;
pub mod translate;

pub use parser::parse;
pub use translate::{InferredType, TranslateCtx, Translated, translate, truthy};
