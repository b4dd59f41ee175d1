//! A small Lisp-like expression language: a character-level tokenizer, a
//! recursive-descent parser that turns malformed syntax into error nodes
//! instead of panicking, and a tree-walking evaluator with an explicit value
//! stack and a symbol environment.
//!
//! The library also holds the ordinary collection types that the interpreter's
//! surroundings use: a growable vector, a singly linked list, a binary search
//! tree, and a few small record types.

pub mod ast;
pub mod bst;
pub mod interpreter;
pub mod linked_list;
pub mod mystring;
pub mod num;
pub mod parser;
pub mod repl;
pub mod todo;
pub mod tokenizer;
pub mod values;
pub mod vector;
