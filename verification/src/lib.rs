pub mod algebra;
pub mod ast;
pub mod diff;
pub mod format;
pub mod latex;
pub mod laws;
pub mod num;
pub mod parser;

pub use algebra::simplify;
pub use ast::{BinaryOp, Expr, UnaryOp};
pub use diff::differentiate;
pub use format::{format_expr, format_expr_latex};
pub use latex::latex_to_math_expr;
pub use num::Num;
pub use parser::{parse, ParseError, Parser};
