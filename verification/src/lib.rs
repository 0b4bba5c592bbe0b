pub mod evaluator;
pub mod lexer;
pub mod parser;
pub mod text;

pub use evaluator::object::environment::{Environment, Heap, HeapEnvironment};
pub use evaluator::object::{Object, ObjectType};
pub use evaluator::{eval_return, Evaluate};
pub use lexer::Lexer;
pub use parser::{Parse, Parser};
