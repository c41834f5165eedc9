pub mod ast;
pub mod prop;
pub mod guard;
pub mod simplify;
pub mod strings;
pub mod rms_error;
pub mod names;
pub mod id_info;
pub mod type_env;
pub mod type_check;
pub mod text;
pub mod doxygen;
pub mod statement;
pub mod valuation;
pub mod laws;
pub mod token;
pub mod lexer;
pub mod parser;
pub mod reader;
pub mod shape;
pub mod semantics;
