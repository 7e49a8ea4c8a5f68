pub mod compact;
pub mod codegen;
pub mod brackets;
pub mod machine;
