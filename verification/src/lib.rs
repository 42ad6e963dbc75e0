//! Incremental registry for a declarative document language.
//!
//! Source files are tokenized, handed to a grammar-level parser, and stored as
//! flat node arrays. The registry tracks which module depends on which, keeps a
//! working order in which dependencies come before their dependents, marks the
//! documents that an edit makes stale, and resolves names across scopes,
//! class parents and module imports.
//!
//! The lexer that recognizes one fragment of a line, the parser and the
//! expansion transform are not part of this library: the functions that
//! need them take them as closures, and say in their contracts what holds
//! for whatever the closures return.

pub mod live_id;
pub mod span;
pub mod live_ptr;
pub mod live_token;
pub mod live_error;
pub mod tokenizer;
pub mod live_node;
pub mod live_node_vec;
pub mod live_document;
pub mod module_table;
pub mod type_table;
pub mod dep_order;
pub mod dep_graph;
pub mod live_registry;
pub mod live_scope;
pub mod live_register;
pub mod live_expand;
pub mod laws;
