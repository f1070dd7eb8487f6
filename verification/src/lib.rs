pub mod types;
pub mod text;
pub mod sexpr;
pub mod parser;
pub mod codegen;
pub mod nasm;
pub mod labels;
pub mod targets;
pub mod slots;
pub mod machine;
pub mod compiler;
pub mod runtime;
