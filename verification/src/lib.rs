pub mod codegen;
pub mod common;
pub mod laws;
pub mod lexer;
pub mod oldvm;
pub mod parser;
pub mod peephole;
pub mod semantics;
pub mod token;
pub mod vm;

pub use vm::Interpreter;
pub use vm::RuntimeError;

pub use codegen::generate_code;
pub use common::Instruction;
pub use lexer::Lexer;
pub use oldvm::BFInterpreter;
pub use parser::Parser;
pub use token::Tokenizer;
pub use common::Node;
pub use common::Token;
