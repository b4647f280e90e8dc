//! Grand Expressions: a small expression language that compiles to a
//! constraint-based random number generator.
//!
//! A program is a single expression: a number, a range such as `0..10`
//! (closed), `0,,10` (open), `0.,10` or `0,.10` (half open), a parenthesised
//! sub-expression or a bracketed selection `[1, 2, 3]`. A range may carry
//! constraints: `0..100|*2` keeps multiples of 2, `0..100|!*2,3` rejects
//! multiples of 2 and of 3.
//!
//! Text that means nothing to the language is passed over, so a program may
//! be annotated freely with letters and spaces.
use parser::constraints::PRECALC_MEMORY_BUDGET;
use parser::grammar::program;
use parser::lexer::lex;
use parser::{parse, parse_with_budget, result_view};
use vstd::prelude::*;

pub mod decimal;
pub mod parser;
pub mod rng_functions;
pub mod rng_traits;

pub use decimal::Decimal;
pub use parser::gex::Gex;
pub use parser::parse_error::CompilerError;
pub use rng_functions::SamplingError;
pub use rng_traits::Randomizable;

verus! {

/// Compiles `expression` into a generator of decimal numbers.
pub fn compile_raw(expression: &str) -> (r: Result<Gex, CompilerError>)
    ensures
        result_view(r) == program(lex(expression@), PRECALC_MEMORY_BUDGET),
        r matches Ok(g) ==> parser::gex::well_formed(g@),
{
    parse(expression)
}

/// Compiles `expression` with a memory budget of its own: a range with both
/// kinds of constraint may spend `memory_budget` bytes on the values it
/// works out beforehand, and keeps its constraints where they would take
/// more.
pub fn compile_raw_with_budget(expression: &str, memory_budget: i64) -> (r: Result<
    Gex,
    CompilerError,
>)
    ensures
        result_view(r) == program(lex(expression@), memory_budget),
        r matches Ok(g) ==> parser::gex::well_formed(g@),
{
    parse_with_budget(expression, memory_budget)
}

} // verus!
