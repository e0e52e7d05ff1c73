//! CSS Modules as a build-time transform.
//!
//! Each CSS module is parsed (`syntax`), its class names and keyframes names
//! are given global names of the form `{file stem}__{local name}__{ordinal}`
//! (`names`, `rewrite`), its imports are resolved and their names merged
//! (`module`), and the renamed modules are rendered into one CSS bundle
//! (`ast`). The compiler (`compiler`) also yields, per module, the table from
//! local to global names under a posix-style module key (`paths`), which the
//! runtime side (`mapping`) answers lookups from.

pub mod ast;
pub mod compiler;
pub mod diagnostic;
pub mod mapping;
pub mod module;
pub mod names;
pub mod paths;
pub mod rewrite;
pub mod syntax;
pub mod text;

pub use compiler::{BuildError, CompileOutput, Compiler, ModuleMapping};
pub use mapping::{LookupError, Mapping, Mappings};
pub use module::{CompileError, Module, Stylesheet};
