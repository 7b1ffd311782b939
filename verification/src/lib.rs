pub mod call_levels;
pub mod depth;
pub mod eval;
pub mod expr;
pub mod function;
pub mod interpreter;
pub mod logic_expr;
pub mod name_map;
pub mod numeric_expr;
pub mod pattern_match;
pub mod program;
pub mod segments;
pub mod tokens;
pub mod views;
