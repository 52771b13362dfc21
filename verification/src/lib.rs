//! A small statically typed, purely functional language: its type model, a
//! static analyzer, an interpreter with value-semantics closures, and the
//! ordering of modules by their imports.
#![allow(unused_imports)]

pub mod ast;
pub mod types;
pub mod analyzer;
pub mod scope;
pub mod interpreter;
pub mod loader;
pub mod basics;
pub mod soundness;
