//! Compiler for a small language that describes a basketball play and draws it
//! as a diagram: lexing, parsing, lowering to a scene, and rendering.
pub mod text;
pub mod num;
pub mod chars;
pub mod lexer;
pub mod suggest;
pub mod ast;
pub mod parser;
pub mod ir;
pub mod renderer;

pub use renderer::Renderer;
pub use ir::IRGenerator;
