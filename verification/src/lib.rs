//! A call-graph-guided code search over a small prototype-based scripting
//! language with CommonJS-style modules. Given loaded source files, an entry
//! file, a needle and a starting function, it reports every source line that
//! contains the needle and is reachable from the start through call
//! expressions, following `require("./...")` bindings across files.
//!
//! The tokenizer, the parser, the scope stack and the traversal are verified:
//! the parser's result is proved equal to a specification-level parse of the
//! source text, and a search's outcome and reports are proved equal to a
//! specification-level traversal of the loaded files — so the reports hold
//! the needle, lie in files the search entered, and name no line twice for
//! one file, and nothing reachable is left out.

pub mod ast;
pub mod file_scope;
pub mod lexer;
pub mod parser;
pub mod symbol_table;
pub mod utils;
pub mod visitor;
