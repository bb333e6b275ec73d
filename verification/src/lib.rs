//! A compiler and a stack machine for Cauchemar, a small stack-based
//! language of named routines, literals, arithmetic, conditionals and loops.
//!
//! `tree` turns the tree that a parser hands over into the command trees of
//! `ast`; `compiler` lowers those to the bytecode of `instruction`; `vm`
//! executes it. `machine` and `direct` say what the bytecode and the command
//! trees mean, and `equivalence` proves that the two agree.
//!
//! Where the language leaves a choice, this is what was chosen:
//!
//! - Arithmetic wraps around; there is no overflow fault.
//! - A built-in routine takes the place of a user routine of the same name,
//!   and of two user routines of one name the later one stands.
//! - Every built-in routine faults on a stack that is too short, `DROP`
//!   included.
//! - A fault leaves the machine as it was before the step that faulted.
//! - `PRINT` appends to the machine's output; to show it is the caller's
//!   business.

pub mod value;
pub mod ast;
pub mod instruction;
pub mod fault;
pub mod table;
pub mod stack;
pub mod arith;
pub mod native;
pub mod machine;
pub mod compiler;
pub mod vm;
pub mod direct;
pub mod equivalence;
pub mod laws;
pub mod text;
pub mod tree;
