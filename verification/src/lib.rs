//! Kintsu schema language: lexing, token streams, formatting, the
//! resolution phases of the compiler, declarations, and the compile order of
//! schemas and namespaces, with their contracts.
pub mod defs;
pub mod text;
pub mod toks;
pub mod escape;
pub mod lexer;
pub mod stream;
pub mod printer;
pub mod paths;
pub mod names;
pub mod registry_core;
pub mod registry_auth;
pub mod ordmap;
pub mod type_graph;
pub mod ast;
pub mod ast_ops;
pub mod union_or;
pub mod common;
pub mod helpers;
pub mod aliases;
pub mod anonymous;
pub mod unions;
pub mod type_expr;
pub mod pathord;
pub mod refset;
pub mod declare;
pub mod resolution;
pub mod extract;
pub mod type_registry;
pub mod validation;
pub mod alias_resolve;
pub mod metadata;
pub mod phases;
pub mod union_check;
pub mod union_or_merge;
pub mod schema_graph;
pub mod ns_levels;
pub mod convert;
pub mod pipeline;
pub mod items;
pub mod namespace_build;
pub mod convert_item;
pub mod lib_module;
pub mod union_or_phase;
pub mod packaging;
pub mod registration;
pub mod declare_ns;
pub mod scc;
