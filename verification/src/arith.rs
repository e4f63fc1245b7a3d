//! The arithmetic unit: the only place where rounding arithmetic happens.
//!
//! The library asks for one operation at a time on operands given as bit
//! patterns and receives the result's bit pattern.  Contracts speak of the
//! function that a unit computes, `answer(unit)`, and hold for every unit that
//! answers each request in one way only (`functional`).

use vstd::prelude::*;

verus! {

/// One arithmetic operation on single-precision numbers.
#[derive(Clone, Copy, PartialEq, Eq, Structural, Debug)]
pub enum Operation {
    /// `a + b`
    Add,
    /// `a - b`
    Sub,
    /// `a * b`
    Mul,
    /// `a / b`
    Div,
    /// `e` raised to `a`; `b` is ignored.
    Exp,
    /// `a` raised to `b`.
    Pow,
    /// The square root of `a`; `b` is ignored.
    Sqrt,
    /// The number nearest to the unsigned integer `a`; `b` is ignored.
    FromCount,
}

/// A request to the arithmetic unit: an operation and its operands.
#[derive(Clone, Copy, PartialEq, Eq, Structural, Debug)]
pub struct Request {
    pub op: Operation,
    pub a: u32,
    pub b: u32,
}

/// What an arithmetic unit computes, as a mathematical function.
pub type Arithmetic = spec_fn(Request) -> u32;

/// The unit accepts every request.
pub open spec fn total<F: Fn(Request) -> u32>(unit: &F) -> bool {
    forall|q: Request| #[trigger] unit.requires((q,))
}

/// The function that `unit` computes, where it is functional.
pub open spec fn answer<F: Fn(Request) -> u32>(unit: &F) -> Arithmetic {
    |q: Request| choose|r: u32| unit.ensures((q,), r)
}

/// The unit answers each request in one way only.
pub open spec fn functional<F: Fn(Request) -> u32>(unit: &F) -> bool {
    forall|q: Request, r: u32| #[trigger] unit.ensures((q,), r) ==> r == answer(unit)(q)
}

pub open spec fn sum(f: Arithmetic, a: u32, b: u32) -> u32 {
    f(Request { op: Operation::Add, a, b })
}

pub open spec fn difference(f: Arithmetic, a: u32, b: u32) -> u32 {
    f(Request { op: Operation::Sub, a, b })
}

pub open spec fn product(f: Arithmetic, a: u32, b: u32) -> u32 {
    f(Request { op: Operation::Mul, a, b })
}

pub open spec fn quotient(f: Arithmetic, a: u32, b: u32) -> u32 {
    f(Request { op: Operation::Div, a, b })
}

pub open spec fn exponential(f: Arithmetic, a: u32) -> u32 {
    f(Request { op: Operation::Exp, a, b: 0 })
}

pub open spec fn power(f: Arithmetic, a: u32, b: u32) -> u32 {
    f(Request { op: Operation::Pow, a, b })
}

pub open spec fn square_root(f: Arithmetic, a: u32) -> u32 {
    f(Request { op: Operation::Sqrt, a, b: 0 })
}

pub open spec fn from_count(f: Arithmetic, n: u32) -> u32 {
    f(Request { op: Operation::FromCount, a: n, b: 0 })
}

/// Asks the unit for `a + b`.
pub fn plus<F: Fn(Request) -> u32>(unit: &F, a: u32, b: u32) -> (r: u32)
    requires
        total(unit),
    ensures
        functional(unit) ==> r == sum(answer(unit), a, b),
{
    unit(Request { op: Operation::Add, a, b })
}

/// Asks the unit for `a - b`.
pub fn minus<F: Fn(Request) -> u32>(unit: &F, a: u32, b: u32) -> (r: u32)
    requires
        total(unit),
    ensures
        functional(unit) ==> r == difference(answer(unit), a, b),
{
    unit(Request { op: Operation::Sub, a, b })
}

/// Asks the unit for `a * b`.
pub fn times<F: Fn(Request) -> u32>(unit: &F, a: u32, b: u32) -> (r: u32)
    requires
        total(unit),
    ensures
        functional(unit) ==> r == product(answer(unit), a, b),
{
    unit(Request { op: Operation::Mul, a, b })
}

/// Asks the unit for `a / b`.
pub fn over<F: Fn(Request) -> u32>(unit: &F, a: u32, b: u32) -> (r: u32)
    requires
        total(unit),
    ensures
        functional(unit) ==> r == quotient(answer(unit), a, b),
{
    unit(Request { op: Operation::Div, a, b })
}

/// Asks the unit for `e` raised to `a`.
pub fn exp_of<F: Fn(Request) -> u32>(unit: &F, a: u32) -> (r: u32)
    requires
        total(unit),
    ensures
        functional(unit) ==> r == exponential(answer(unit), a),
{
    unit(Request { op: Operation::Exp, a, b: 0 })
}

/// Asks the unit for `a` raised to `b`.
pub fn raised<F: Fn(Request) -> u32>(unit: &F, a: u32, b: u32) -> (r: u32)
    requires
        total(unit),
    ensures
        functional(unit) ==> r == power(answer(unit), a, b),
{
    unit(Request { op: Operation::Pow, a, b })
}

/// Asks the unit for the square root of `a`.
pub fn root_of<F: Fn(Request) -> u32>(unit: &F, a: u32) -> (r: u32)
    requires
        total(unit),
    ensures
        functional(unit) ==> r == square_root(answer(unit), a),
{
    unit(Request { op: Operation::Sqrt, a, b: 0 })
}

/// Asks the unit for the number nearest to the integer `n`.
pub fn count_of<F: Fn(Request) -> u32>(unit: &F, n: u32) -> (r: u32)
    requires
        total(unit),
    ensures
        functional(unit) ==> r == from_count(answer(unit), n),
{
    unit(Request { op: Operation::FromCount, a: n, b: 0 })
}

} // verus!
