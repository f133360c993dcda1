//! The compiler's parts: the bytecode buffer, the debug profile that maps
//! bytecode back to source tokens, function documentation and the label
//! generator of the disassembler.
pub mod asm_transcoder;
pub mod compiler;
pub mod debug_profile;
pub mod error;
pub mod function_docs;

pub use compiler::{Compiler, CompilerOptions, HashString, LoopCompilationExt};
pub use debug_profile::DebugProfile;
pub use error::CompilerError;
pub use function_docs::FunctionDocs;
