pub mod calc;
pub mod correctness;
pub mod laws;
pub mod model;
pub mod semantics;
pub mod tokens;

pub use calc::Calculator;
pub use tokens::Error;
pub use tokens::Operator;
pub use tokens::Token;
