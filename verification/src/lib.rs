//! Request routing: given the patterns registered for each HTTP method, find
//! the handler that answers a path and the parameters that the path carries.
//!
//! - `shape`, `specificity`, `expression` and `parse` say what a pattern is:
//!   which paths it matches, how patterns are ordered, and how a pattern is
//!   written as text and as a match-expression.
//! - `pattern` and `compare` hold the patterns themselves.
//! - `pattern_set` keeps patterns with their tokens, most specific first;
//!   `compiled` and `engine` turn such a set into one matcher.
//! - `method`, `table` and `router` build the dispatch table, one set of
//!   routes for each method.
//! - `param` binds the captured parameters to the types of a handler.
//! - `order` and `text` are the helpers for ranks and characters.

pub mod compare;
pub mod compiled;
pub mod engine;
pub mod expression;
pub mod method;
pub mod order;
pub mod param;
pub mod parse;
pub mod pattern;
pub mod pattern_set;
pub mod router;
pub mod shape;
pub mod specificity;
pub mod table;
pub mod text;
