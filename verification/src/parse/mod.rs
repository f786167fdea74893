pub mod arith;
pub mod ast;
pub mod eval;
pub mod session;
pub mod grammar;
pub mod lexer;
pub mod roundtrip;
pub mod soundness;
pub mod store;
pub mod typecheck;
