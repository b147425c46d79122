//! Static analysis for an error-tolerant syntax tree of the Nix language:
//! locating a cursor, resolving identifiers, rendering any (possibly broken)
//! subtree back to guaranteed-valid source text, and reconstructing the
//! lexical scope of a subexpression as a self-contained expression string.

pub mod kinds;
pub mod events;
pub mod tree;
pub mod node;
pub mod strutil;
pub mod escape;
pub mod render;
pub mod walk_attrs;
pub mod schema;
pub mod file_types;
pub mod lambda_arg;
pub mod fetcher;
pub mod cursor;
pub mod scopes;
pub mod context;
pub mod completion;
pub mod hover;
pub mod eval;
pub mod testing;
pub mod analyzer;
