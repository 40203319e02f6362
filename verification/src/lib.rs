//! A structurally typed, s-expression based functional language: the type
//! arena, type environment, subtyping, inference and the evaluator.

pub mod ast;
pub mod chains;
pub mod environment;
pub mod error;
pub mod eval;
pub mod externals;
pub mod infer;
pub mod into_ast;
pub mod issuer;
pub mod laws;
pub mod names;
pub mod normal;
pub mod sexp;
pub mod show;
pub mod subtyping;
pub mod type_alloc;
pub mod type_check;
pub mod type_env;
pub mod type_eval;
pub mod types;
pub mod unify;
