//! An abstract machine for first-order term unification in the style of
//! Warren's Abstract Machine at its simplest levels: structured terms are
//! compiled to a flat bytecode, executed against a tagged-cell heap, and
//! query terms are unified against previously registered facts.

pub mod ast;
pub mod knowledge;
pub mod machine;
pub mod operation;
pub mod program;
pub mod query;
pub mod statement;
pub mod storage;
pub mod term_builder;

pub use knowledge::Knowledge;
pub use machine::Machine;
pub use storage::Cell;
pub use storage::Storage;
pub use term_builder::TermBuilder;
