//! Arithmetic that the caller supplies.
//!
//! Prices, quantities and ratios are of a number type `F` of which the library
//! knows nothing. What it computes with them it asks of an [`Arithmetic`], one
//! elementary step at a time. Contracts speak of a [`Model`]: a mathematical
//! function that gives, for every step, what the arithmetic returns. They hold
//! for every model that describes the arithmetic in use.

use vstd::prelude::*;

verus! {

/// One elementary computation.
#[derive(Clone, Copy, Debug)]
pub enum Term<F> {
    /// The number `numerator / denominator`.
    Ratio(i64, u64),
    /// A whole number.
    Count(u64),
    /// Greater than every finite number.
    Infinity,
    /// Less than every finite number.
    NegInfinity,
    Neg(F),
    Abs(F),
    Square(F),
    Sqrt(F),
    Ln(F),
    Floor(F),
    Ceil(F),
    Round(F),
    Add(F, F),
    Sub(F, F),
    Mul(F, F),
    Div(F, F),
    /// The greater of two numbers; the other one where one is no number.
    Max(F, F),
    /// The lesser of two numbers; the other one where one is no number.
    Min(F, F),
}

/// One elementary comparison.
#[derive(Clone, Copy, Debug)]
pub enum Test<F> {
    Less(F, F),
    LessEq(F, F),
    Equal(F, F),
    /// Neither infinite nor no number at all.
    Finite(F),
}

/// How a number is written.
#[derive(Clone, Copy, Debug)]
pub enum Style {
    /// With as many digits as tell it from every other number.
    Shortest,
    /// With this many digits behind the point.
    Fixed(usize),
    /// With this many digits behind the point, and a sign before every number.
    Signed(usize),
}

/// Arithmetic on numbers of type `F`.
pub trait Arithmetic<F> {
    /// The value of a term.
    fn eval(&self, term: Term<F>) -> F;

    /// Whether a comparison holds.
    fn test(&self, comparison: Test<F>) -> bool;

    /// The whole part of a number: zero for what is below zero or no number,
    /// the greatest integer for what is beyond it.
    fn whole(&self, number: F) -> u64;

    /// The number as text.
    fn text(&self, number: F, style: Style) -> String;

    /// The number that a text spells, or what is wrong with the text.
    fn parse(&self, text: &str) -> Result<F, String>;
}

/// What an arithmetic returns, as mathematical functions.
#[verifier::reject_recursive_types(F)]
pub struct Model<F> {
    pub eval: spec_fn(Term<F>) -> F,
    pub test: spec_fn(Test<F>) -> bool,
    pub whole: spec_fn(F) -> u64,
    pub text: spec_fn(F, Style) -> Seq<char>,
    pub parse: spec_fn(Seq<char>) -> Result<F, Seq<char>>,
}

/// The result of reading a number, with its message as characters.
pub open spec fn parse_view<F>(outcome: Result<F, String>) -> Result<F, Seq<char>> {
    match outcome {
        Ok(number) => Ok(number),
        Err(message) => Err(message@),
    }
}

/// Whether a model describes an arithmetic: for every step, what the arithmetic
/// returns is what the model gives.
pub open spec fn describes<F, A: Arithmetic<F>>(m: Model<F>, a: A) -> bool {
    &&& forall|term: Term<F>, r: F| #[trigger]
        call_ensures(A::eval, (&a, term), r) ==> r == (m.eval)(term)
    &&& forall|comparison: Test<F>, r: bool| #[trigger]
        call_ensures(A::test, (&a, comparison), r) ==> r == (m.test)(comparison)
    &&& forall|number: F, r: u64| #[trigger]
        call_ensures(A::whole, (&a, number), r) ==> r == (m.whole)(number)
    &&& forall|number: F, style: Style, r: String| #[trigger]
        call_ensures(A::text, (&a, number, style), r) ==> r@ == (m.text)(number, style)
    &&& forall|text: &str, r: Result<F, String>| #[trigger]
        call_ensures(A::parse, (&a, text), r) ==> parse_view(r) == (m.parse)(text@)
}

fn apply<A, X, Y, G: Fn(&A, X) -> Y>(g: G, a: &A, x: X) -> (y: Y)
    requires
        call_requires(g, (a, x)),
    ensures
        call_ensures(g, (a, x), y),
{
    g(a, x)
}

fn apply_two<A, X, Y, Z, G: Fn(&A, X, Y) -> Z>(g: G, a: &A, x: X, y: Y) -> (z: Z)
    requires
        call_requires(g, (a, x, y)),
    ensures
        call_ensures(g, (a, x, y), z),
{
    g(a, x, y)
}

fn apply_text<A, Y, G: Fn(&A, &str) -> Y>(g: G, a: &A, x: &str) -> (y: Y)
    requires
        call_requires(g, (a, x)),
    ensures
        call_ensures(g, (a, x), y),
{
    g(a, x)
}

/// The whole part of a number.
pub fn whole<F, A: Arithmetic<F>>(a: &A, number: F) -> (r: u64)
    ensures
        forall|m: Model<F>| #[trigger] describes(m, *a) ==> r == (m.whole)(number),
{
    apply(A::whole, a, number)
}

/// The number as text.
pub fn text<F, A: Arithmetic<F>>(a: &A, number: F, style: Style) -> (r: String)
    ensures
        forall|m: Model<F>| #[trigger] describes(m, *a) ==> r@ == (m.text)(number, style),
{
    apply_two(A::text, a, number, style)
}

/// The number as text with this many digits behind the point.
pub fn fixed<F, A: Arithmetic<F>>(a: &A, number: F, decimals: usize) -> (r: String)
    ensures
        forall|m: Model<F>| #[trigger]
            describes(m, *a) ==> r@ == (m.text)(number, Style::Fixed(decimals)),
{
    text(a, number, Style::Fixed(decimals))
}

/// The number that a text spells, or what is wrong with the text.
pub fn parse<F, A: Arithmetic<F>>(a: &A, text: &str) -> (r: Result<F, String>)
    ensures
        forall|m: Model<F>| #[trigger] describes(m, *a) ==> parse_view(r) == (m.parse)(text@),
{
    apply_text(A::parse, a, text)
}

impl<F> Model<F> {
    /// The number `numerator / denominator`.
    pub open spec fn ratio(self, numerator: int, denominator: int) -> F {
        (self.eval)(Term::Ratio(numerator as i64, denominator as u64))
    }

    /// Zero.
    pub open spec fn zero(self) -> F {
        self.ratio(0, 1)
    }

    /// A whole number.
    pub open spec fn count(self, n: u64) -> F {
        (self.eval)(Term::Count(n))
    }

    /// Greater than every finite number.
    pub open spec fn infinity(self) -> F {
        (self.eval)(Term::Infinity)
    }

    /// Less than every finite number.
    pub open spec fn neg_infinity(self) -> F {
        (self.eval)(Term::NegInfinity)
    }

    /// The number with its sign turned.
    pub open spec fn neg(self, x: F) -> F {
        (self.eval)(Term::Neg(x))
    }

    /// The number without its sign.
    pub open spec fn abs(self, x: F) -> F {
        (self.eval)(Term::Abs(x))
    }

    /// The square of a number.
    pub open spec fn square(self, x: F) -> F {
        (self.eval)(Term::Square(x))
    }

    /// The square root of a number.
    pub open spec fn sqrt(self, x: F) -> F {
        (self.eval)(Term::Sqrt(x))
    }

    /// The natural logarithm of a number.
    pub open spec fn ln(self, x: F) -> F {
        (self.eval)(Term::Ln(x))
    }

    /// The greatest whole number not above a number.
    pub open spec fn floor(self, x: F) -> F {
        (self.eval)(Term::Floor(x))
    }

    /// The least whole number not below a number.
    pub open spec fn ceil(self, x: F) -> F {
        (self.eval)(Term::Ceil(x))
    }

    /// The whole number nearest to a number.
    pub open spec fn round(self, x: F) -> F {
        (self.eval)(Term::Round(x))
    }

    /// The sum of two numbers.
    pub open spec fn plus(self, x: F, y: F) -> F {
        (self.eval)(Term::Add(x, y))
    }

    /// The difference of two numbers.
    pub open spec fn minus(self, x: F, y: F) -> F {
        (self.eval)(Term::Sub(x, y))
    }

    /// The product of two numbers.
    pub open spec fn times(self, x: F, y: F) -> F {
        (self.eval)(Term::Mul(x, y))
    }

    /// The quotient of two numbers.
    pub open spec fn over(self, x: F, y: F) -> F {
        (self.eval)(Term::Div(x, y))
    }

    /// The greater of two numbers.
    pub open spec fn greater(self, x: F, y: F) -> F {
        (self.eval)(Term::Max(x, y))
    }

    /// The lesser of two numbers.
    pub open spec fn lesser(self, x: F, y: F) -> F {
        (self.eval)(Term::Min(x, y))
    }

    /// Whether `x` is less than `y`.
    pub open spec fn less(self, x: F, y: F) -> bool {
        (self.test)(Test::Less(x, y))
    }

    /// Whether `x` is at most `y`.
    pub open spec fn less_eq(self, x: F, y: F) -> bool {
        (self.test)(Test::LessEq(x, y))
    }

    /// Whether `x` equals `y`.
    pub open spec fn equal(self, x: F, y: F) -> bool {
        (self.test)(Test::Equal(x, y))
    }

    /// Whether a number is neither infinite nor no number at all.
    pub open spec fn finite(self, x: F) -> bool {
        (self.test)(Test::Finite(x))
    }
}

/// The number `numerator / denominator`.
pub fn ratio<F, A: Arithmetic<F>>(a: &A, numerator: i64, denominator: u64) -> (r: F)
    ensures
        forall|m: Model<F>| #[trigger]
            describes(m, *a) ==> r == m.ratio(numerator as int, denominator as int),
{
    apply(A::eval, a, Term::Ratio(numerator, denominator))
}

/// Zero.
pub fn zero<F, A: Arithmetic<F>>(a: &A) -> (r: F)
    ensures
        forall|m: Model<F>| #[trigger] describes(m, *a) ==> r == m.zero(),
{
    ratio(a, 0, 1)
}

/// A whole number.
pub fn count<F, A: Arithmetic<F>>(a: &A, n: u64) -> (r: F)
    ensures
        forall|m: Model<F>| #[trigger] describes(m, *a) ==> r == m.count(n),
{
    apply(A::eval, a, Term::Count(n))
}

/// Greater than every finite number.
pub fn infinity<F, A: Arithmetic<F>>(a: &A) -> (r: F)
    ensures
        forall|m: Model<F>| #[trigger] describes(m, *a) ==> r == m.infinity(),
{
    apply(A::eval, a, Term::Infinity)
}

/// Less than every finite number.
pub fn neg_infinity<F, A: Arithmetic<F>>(a: &A) -> (r: F)
    ensures
        forall|m: Model<F>| #[trigger] describes(m, *a) ==> r == m.neg_infinity(),
{
    apply(A::eval, a, Term::NegInfinity)
}

/// The number with its sign turned.
pub fn neg<F, A: Arithmetic<F>>(a: &A, x: F) -> (r: F)
    ensures
        forall|m: Model<F>| #[trigger] describes(m, *a) ==> r == m.neg(x),
{
    apply(A::eval, a, Term::Neg(x))
}

/// The number without its sign.
pub fn abs<F, A: Arithmetic<F>>(a: &A, x: F) -> (r: F)
    ensures
        forall|m: Model<F>| #[trigger] describes(m, *a) ==> r == m.abs(x),
{
    apply(A::eval, a, Term::Abs(x))
}

/// The square of a number.
pub fn square<F, A: Arithmetic<F>>(a: &A, x: F) -> (r: F)
    ensures
        forall|m: Model<F>| #[trigger] describes(m, *a) ==> r == m.square(x),
{
    apply(A::eval, a, Term::Square(x))
}

/// The square root of a number.
pub fn sqrt<F, A: Arithmetic<F>>(a: &A, x: F) -> (r: F)
    ensures
        forall|m: Model<F>| #[trigger] describes(m, *a) ==> r == m.sqrt(x),
{
    apply(A::eval, a, Term::Sqrt(x))
}

/// The natural logarithm of a number.
pub fn ln<F, A: Arithmetic<F>>(a: &A, x: F) -> (r: F)
    ensures
        forall|m: Model<F>| #[trigger] describes(m, *a) ==> r == m.ln(x),
{
    apply(A::eval, a, Term::Ln(x))
}

/// The greatest whole number not above a number.
pub fn floor<F, A: Arithmetic<F>>(a: &A, x: F) -> (r: F)
    ensures
        forall|m: Model<F>| #[trigger] describes(m, *a) ==> r == m.floor(x),
{
    apply(A::eval, a, Term::Floor(x))
}

/// The least whole number not below a number.
pub fn ceil<F, A: Arithmetic<F>>(a: &A, x: F) -> (r: F)
    ensures
        forall|m: Model<F>| #[trigger] describes(m, *a) ==> r == m.ceil(x),
{
    apply(A::eval, a, Term::Ceil(x))
}

/// The whole number nearest to a number.
pub fn round<F, A: Arithmetic<F>>(a: &A, x: F) -> (r: F)
    ensures
        forall|m: Model<F>| #[trigger] describes(m, *a) ==> r == m.round(x),
{
    apply(A::eval, a, Term::Round(x))
}

/// The sum of two numbers.
pub fn plus<F, A: Arithmetic<F>>(a: &A, x: F, y: F) -> (r: F)
    ensures
        forall|m: Model<F>| #[trigger] describes(m, *a) ==> r == m.plus(x, y),
{
    apply(A::eval, a, Term::Add(x, y))
}

/// The difference of two numbers.
pub fn minus<F, A: Arithmetic<F>>(a: &A, x: F, y: F) -> (r: F)
    ensures
        forall|m: Model<F>| #[trigger] describes(m, *a) ==> r == m.minus(x, y),
{
    apply(A::eval, a, Term::Sub(x, y))
}

/// The product of two numbers.
pub fn times<F, A: Arithmetic<F>>(a: &A, x: F, y: F) -> (r: F)
    ensures
        forall|m: Model<F>| #[trigger] describes(m, *a) ==> r == m.times(x, y),
{
    apply(A::eval, a, Term::Mul(x, y))
}

/// The quotient of two numbers.
pub fn over<F, A: Arithmetic<F>>(a: &A, x: F, y: F) -> (r: F)
    ensures
        forall|m: Model<F>| #[trigger] describes(m, *a) ==> r == m.over(x, y),
{
    apply(A::eval, a, Term::Div(x, y))
}

/// The greater of two numbers.
pub fn greater<F, A: Arithmetic<F>>(a: &A, x: F, y: F) -> (r: F)
    ensures
        forall|m: Model<F>| #[trigger] describes(m, *a) ==> r == m.greater(x, y),
{
    apply(A::eval, a, Term::Max(x, y))
}

/// The lesser of two numbers.
pub fn lesser<F, A: Arithmetic<F>>(a: &A, x: F, y: F) -> (r: F)
    ensures
        forall|m: Model<F>| #[trigger] describes(m, *a) ==> r == m.lesser(x, y),
{
    apply(A::eval, a, Term::Min(x, y))
}

/// Whether `x` is less than `y`.
pub fn less<F, A: Arithmetic<F>>(a: &A, x: F, y: F) -> (r: bool)
    ensures
        forall|m: Model<F>| #[trigger] describes(m, *a) ==> r == m.less(x, y),
{
    apply(A::test, a, Test::Less(x, y))
}

/// Whether `x` is at most `y`.
pub fn less_eq<F, A: Arithmetic<F>>(a: &A, x: F, y: F) -> (r: bool)
    ensures
        forall|m: Model<F>| #[trigger] describes(m, *a) ==> r == m.less_eq(x, y),
{
    apply(A::test, a, Test::LessEq(x, y))
}

/// Whether `x` equals `y`.
pub fn equal<F, A: Arithmetic<F>>(a: &A, x: F, y: F) -> (r: bool)
    ensures
        forall|m: Model<F>| #[trigger] describes(m, *a) ==> r == m.equal(x, y),
{
    apply(A::test, a, Test::Equal(x, y))
}

/// Whether a number is neither infinite nor no number at all.
pub fn finite<F, A: Arithmetic<F>>(a: &A, x: F) -> (r: bool)
    ensures
        forall|m: Model<F>| #[trigger] describes(m, *a) ==> r == m.finite(x),
{
    apply(A::test, a, Test::Finite(x))
}

// ---------------------------------------------------------------------------
// Lists of numbers
// ---------------------------------------------------------------------------

impl<F> Model<F> {
    /// The numbers added up from the left, starting from zero.
    pub open spec fn sum(self, list: Seq<F>) -> F
        decreases list.len(),
    {
        if list.len() == 0 {
            self.zero()
        } else {
            self.plus(self.sum(list.drop_last()), list.last())
        }
    }

    /// The greatest of the numbers, below every finite one where there is none.
    pub open spec fn greatest(self, list: Seq<F>) -> F
        decreases list.len(),
    {
        if list.len() == 0 {
            self.neg_infinity()
        } else {
            self.greater(self.greatest(list.drop_last()), list.last())
        }
    }

    /// The least of the numbers, above every finite one where there is none.
    pub open spec fn least(self, list: Seq<F>) -> F
        decreases list.len(),
    {
        if list.len() == 0 {
            self.infinity()
        } else {
            self.lesser(self.least(list.drop_last()), list.last())
        }
    }

    /// The greatest of zero and the numbers.
    pub open spec fn peak(self, list: Seq<F>) -> F
        decreases list.len(),
    {
        if list.len() == 0 {
            self.zero()
        } else {
            self.greater(self.peak(list.drop_last()), list.last())
        }
    }

    /// The sum of the numbers divided by how many there are.
    pub open spec fn mean(self, list: Seq<F>) -> F {
        self.over(self.sum(list), self.count(list.len() as u64))
    }

    /// The number, or the bound that it lies beyond.
    pub open spec fn clamped(self, x: F, low: F, high: F) -> F {
        if self.less(x, low) {
            low
        } else if self.less(high, x) {
            high
        } else {
            x
        }
    }

    /// The number, or zero or one where it lies beyond them.
    pub open spec fn unit(self, x: F) -> F {
        self.clamped(x, self.zero(), self.ratio(1, 1))
    }
}

/// The numbers added up from the left, starting from zero.
pub fn sum<F: Copy, A: Arithmetic<F>>(a: &A, list: &[F]) -> (r: F)
    ensures
        forall|m: Model<F>| #[trigger] describes(m, *a) ==> r == m.sum(list@),
{
    let mut r: F = zero(a);
    let mut i: usize = 0;
    while i < list.len()
        invariant
            i <= list.len(),
            forall|m: Model<F>| #[trigger]
                describes(m, *a) ==> r == m.sum(list@.take(i as int)),
        decreases list.len() - i,
    {
        proof {
            assert(list@.take(i as int + 1).drop_last() =~= list@.take(i as int));
        }
        r = plus(a, r, list[i]);
        i += 1;
    }
    proof {
        assert(list@.take(list@.len() as int) =~= list@);
    }
    r
}

/// The greatest of the numbers, below every finite one where there is none.
pub fn greatest<F: Copy, A: Arithmetic<F>>(a: &A, list: &[F]) -> (r: F)
    ensures
        forall|m: Model<F>| #[trigger] describes(m, *a) ==> r == m.greatest(list@),
{
    let mut r: F = neg_infinity(a);
    let mut i: usize = 0;
    while i < list.len()
        invariant
            i <= list.len(),
            forall|m: Model<F>| #[trigger]
                describes(m, *a) ==> r == m.greatest(list@.take(i as int)),
        decreases list.len() - i,
    {
        proof {
            assert(list@.take(i as int + 1).drop_last() =~= list@.take(i as int));
        }
        r = greater(a, r, list[i]);
        i += 1;
    }
    proof {
        assert(list@.take(list@.len() as int) =~= list@);
    }
    r
}

/// The least of the numbers, above every finite one where there is none.
pub fn least<F: Copy, A: Arithmetic<F>>(a: &A, list: &[F]) -> (r: F)
    ensures
        forall|m: Model<F>| #[trigger] describes(m, *a) ==> r == m.least(list@),
{
    let mut r: F = infinity(a);
    let mut i: usize = 0;
    while i < list.len()
        invariant
            i <= list.len(),
            forall|m: Model<F>| #[trigger]
                describes(m, *a) ==> r == m.least(list@.take(i as int)),
        decreases list.len() - i,
    {
        proof {
            assert(list@.take(i as int + 1).drop_last() =~= list@.take(i as int));
        }
        r = lesser(a, r, list[i]);
        i += 1;
    }
    proof {
        assert(list@.take(list@.len() as int) =~= list@);
    }
    r
}

/// The greatest of zero and the numbers.
pub fn peak<F: Copy, A: Arithmetic<F>>(a: &A, list: &[F]) -> (r: F)
    ensures
        forall|m: Model<F>| #[trigger] describes(m, *a) ==> r == m.peak(list@),
{
    let mut r: F = zero(a);
    let mut i: usize = 0;
    while i < list.len()
        invariant
            i <= list.len(),
            forall|m: Model<F>| #[trigger]
                describes(m, *a) ==> r == m.peak(list@.take(i as int)),
        decreases list.len() - i,
    {
        proof {
            assert(list@.take(i as int + 1).drop_last() =~= list@.take(i as int));
        }
        r = greater(a, r, list[i]);
        i += 1;
    }
    proof {
        assert(list@.take(list@.len() as int) =~= list@);
    }
    r
}

/// The number, or the bound that it lies beyond.
pub fn clamped<F: Copy, A: Arithmetic<F>>(a: &A, x: F, low: F, high: F) -> (r: F)
    ensures
        forall|m: Model<F>| #[trigger] describes(m, *a) ==> r == m.clamped(x, low, high),
{
    if less(a, x, low) {
        low
    } else if less(a, high, x) {
        high
    } else {
        x
    }
}

/// The number, or zero or one where it lies beyond them.
pub fn unit<F: Copy, A: Arithmetic<F>>(a: &A, x: F) -> (r: F)
    ensures
        forall|m: Model<F>| #[trigger] describes(m, *a) ==> r == m.unit(x),
{
    clamped(a, x, zero(a), ratio(a, 1, 1))
}

/// The sum of the numbers divided by how many there are.
pub fn mean<F: Copy, A: Arithmetic<F>>(a: &A, list: &[F]) -> (r: F)
    ensures
        forall|m: Model<F>| #[trigger] describes(m, *a) ==> r == m.mean(list@),
{
    let total: F = sum(a, list);
    over(a, total, count(a, list.len() as u64))
}

/// Whether numbers are ordered as numbers are: of two never each is less than
/// the other, what is not less than a number that is not less than a third is
/// not less than the third, and the greater of two is less than neither.
/// Floating point keeps to this, infinities and what is no number, which does
/// not equal itself, among them.
pub open spec fn orders_numbers<F>(m: Model<F>) -> bool {
    &&& forall|x: F, y: F| #[trigger] m.less(x, y) ==> !m.less(y, x)
    &&& forall|x: F, y: F, z: F|
        #![trigger m.less(x, y), m.less(y, z)]
        m.equal(y, y) && !m.less(x, y) && !m.less(y, z) ==> !m.less(x, z)
    &&& forall|x: F, y: F|
        !m.less(#[trigger] m.greater(x, y), x) && !m.less(m.greater(x, y), y)
}

/// Where numbers are ordered as numbers are, a number that is clamped lies
/// within the bounds, and one that does is kept.
pub proof fn law_clamped_lies_within<F>(m: Model<F>, x: F, low: F, high: F)
    requires
        orders_numbers(m),
        !m.less(high, low),
    ensures
        !m.less(m.clamped(x, low, high), low),
        !m.less(high, m.clamped(x, low, high)),
        !m.less(x, low) && !m.less(high, x) ==> m.clamped(x, low, high) == x,
{
}

/// Whether the greater and the lesser of two numbers are one of the two, less
/// and greater than neither, and every number is at least the least and at most
/// the greatest that there is. Floating point keeps to this.
pub open spec fn picks_extremes<F>(m: Model<F>) -> bool {
    &&& orders_numbers(m)
    &&& forall|x: F, y: F| (#[trigger] m.greater(x, y)) == x || m.greater(x, y) == y
    &&& forall|x: F, y: F| (#[trigger] m.lesser(x, y)) == x || m.lesser(x, y) == y
    &&& forall|x: F, y: F|
        !m.less(x, #[trigger] m.lesser(x, y)) && !m.less(y, m.lesser(x, y))
    &&& forall|x: F| m.equal(x, x) ==> (#[trigger] m.greater(m.neg_infinity(), x)) == x
    &&& forall|x: F| m.equal(x, x) ==> (#[trigger] m.lesser(m.infinity(), x)) == x
}

/// The greatest of numbers is one of them and less than none, and the least is
/// one of them and greater than none.
pub proof fn law_extremes_are_met<F>(m: Model<F>, list: Seq<F>)
    requires
        picks_extremes(m),
        list.len() > 0,
        forall|i: int| 0 <= i < list.len() ==> m.equal(#[trigger] list[i], list[i]),
    ensures
        list.contains(m.greatest(list)),
        list.contains(m.least(list)),
        forall|i: int|
            0 <= i < list.len() ==> !m.less(m.greatest(list), #[trigger] list[i]) && !m.less(
                list[i],
                m.least(list),
            ),
    decreases list.len(),
{
    let front = list.drop_last();
    let n = list.len() - 1;
    assert(m.equal(list[n], list[n]));
    if n == 0 {
        assert(m.greatest(front) == m.neg_infinity());
        assert(m.least(front) == m.infinity());
        assert(m.greatest(list) == list[0]);
        assert(m.least(list) == list[0]);
    } else {
        assert forall|i: int| 0 <= i < front.len() implies m.equal(#[trigger] front[i], front[i]) by {
            assert(front[i] == list[i]);
        }
        law_extremes_are_met(m, front);
        let high = m.greatest(front);
        let low = m.least(front);
        let k = choose|k: int| 0 <= k < front.len() && front[k] == high;
        let l = choose|l: int| 0 <= l < front.len() && front[l] == low;
        assert(list[k] == high && list[l] == low);
        assert(m.equal(high, high) && m.equal(low, low));
        assert(m.greatest(list) == m.greater(high, list[n]));
        assert(m.least(list) == m.lesser(low, list[n]));
        if m.greatest(list) == list[n] {
            assert(list.contains(m.greatest(list)));
        }
        if m.least(list) == list[n] {
            assert(list.contains(m.least(list)));
        }
        assert forall|i: int| 0 <= i < list.len() implies !m.less(
            m.greatest(list),
            #[trigger] list[i],
        ) && !m.less(list[i], m.least(list)) by {
            if i < n {
                assert(front[i] == list[i]);
                assert(!m.less(m.greatest(list), high));
                assert(!m.less(high, list[i]));
                assert(!m.less(list[i], low));
                assert(!m.less(low, m.least(list)));
            }
        }
    }
}

// ---------------------------------------------------------------------------
// Laws of arithmetic
// ---------------------------------------------------------------------------

/// Whether two numbers are the same but for the sign of a zero, or both are no
/// number.
pub open spec fn alike<F>(m: Model<F>, x: F, y: F) -> bool {
    x == y || m.equal(x, y) || (!m.equal(x, x) && !m.equal(y, y))
}

/// Whether what is computed of like numbers is alike. A quotient has to have a
/// divisor above zero.
pub open spec fn tells_no_zeros_apart<F>(m: Model<F>) -> bool {
    &&& forall|x: F, y: F| #[trigger] m.equal(x, y) ==> m.equal(y, x)
    &&& forall|x: F, y: F, z: F|
        #![trigger m.equal(x, y), m.equal(y, z)]
        m.equal(x, y) && m.equal(y, z) ==> m.equal(x, z)
    &&& forall|x: F, y: F, u: F, v: F|
        #![trigger m.less(x, y), m.less(u, v)]
        alike(m, x, u) && alike(m, y, v) ==> m.less(x, y) == m.less(u, v)
    &&& forall|x: F, u: F|
        #![trigger m.neg(x), m.neg(u)]
        alike(m, x, u) ==> alike(m, m.neg(x), m.neg(u))
    &&& forall|x: F, y: F, u: F, v: F|
        #![trigger m.plus(x, y), m.plus(u, v)]
        alike(m, x, u) && alike(m, y, v) ==> alike(m, m.plus(x, y), m.plus(u, v))
    &&& forall|x: F, y: F, u: F, v: F|
        #![trigger m.minus(x, y), m.minus(u, v)]
        alike(m, x, u) && alike(m, y, v) ==> alike(m, m.minus(x, y), m.minus(u, v))
    &&& forall|x: F, y: F, u: F, v: F|
        #![trigger m.times(x, y), m.times(u, v)]
        alike(m, x, u) && alike(m, y, v) ==> alike(m, m.times(x, y), m.times(u, v))
    &&& forall|x: F, y: F, u: F, v: F|
        #![trigger m.over(x, y), m.over(u, v)]
        alike(m, x, u) && alike(m, y, v) && m.less(m.zero(), y) ==> alike(
            m,
            m.over(x, y),
            m.over(u, v),
        )
}

/// Whether turning the signs of numbers turns the sign of what is computed of
/// them. Floating point does, infinities and what is no number among them.
pub open spec fn turns_signs<F>(m: Model<F>) -> bool {
    &&& tells_no_zeros_apart(m)
    &&& forall|x: F, y: F| #[trigger] m.less(x, y) ==> !m.less(y, x)
    &&& forall|x: F, y: F| #[trigger] m.less(m.neg(x), m.neg(y)) == m.less(y, x)
    &&& forall|x: F| alike(m, #[trigger] m.neg(m.neg(x)), x)
    &&& alike(m, m.neg(m.zero()), m.zero())
    &&& alike(m, m.plus(m.zero(), m.zero()), m.zero())
    &&& forall|x: F, y: F| alike(m, #[trigger] m.plus(x, y), m.plus(y, x))
    &&& forall|x: F, y: F|
        alike(m, #[trigger] m.plus(m.neg(x), m.neg(y)), m.neg(m.plus(x, y)))
    &&& forall|x: F, y: F| alike(m, #[trigger] m.minus(x, y), m.plus(x, m.neg(y)))
    &&& forall|x: F, y: F| alike(m, #[trigger] m.times(m.neg(x), y), m.neg(m.times(x, y)))
    &&& forall|x: F, y: F| alike(m, #[trigger] m.over(m.neg(x), y), m.neg(m.over(x, y)))
}

/// Whether what is computed of greater numbers is not less. Floating point keeps
/// to this, infinities and what is no number among them.
pub open spec fn keeps_bounds<F>(m: Model<F>) -> bool {
    &&& turns_signs(m)
    &&& forall|x: F, y: F| #[trigger] m.less_eq(x, y) ==> !m.less(y, x) && m.equal(y, y)
    &&& forall|x: F, y: F, z: F|
        #![trigger m.less_eq(x, y), m.less(y, z)]
        m.less_eq(x, y) && m.less(y, z) ==> m.less(x, z)
    &&& forall|x: F, y: F, z: F|
        #![trigger m.less(x, y), m.less(x, z)]
        #![trigger m.less(x, y), m.less(z, y)]
        m.less(x, y) && m.equal(z, z) ==> m.less(x, z) || m.less(z, y)
    &&& forall|n: int, d: int|
        0 <= n <= i64::MAX && 0 < d <= u64::MAX ==> m.less_eq(m.zero(), #[trigger] m.ratio(n, d))
    &&& forall|n: int, d: int|
        0 < n <= i64::MAX && 0 < d <= u64::MAX ==> m.less(m.zero(), #[trigger] m.ratio(n, d))
    &&& forall|x: F, y: F|
        m.less_eq(m.zero(), x) && m.less_eq(m.zero(), y) ==> m.less_eq(
            m.zero(),
            #[trigger] m.plus(x, y),
        )
    &&& forall|x: F, y: F, high: F, low: F|
        #![trigger m.minus(x, y), m.minus(high, low)]
        !m.less(high, x) && !m.less(y, low) ==> !m.less(m.minus(high, low), m.minus(x, y))
    &&& forall|x: F, high: F, factor: F|
        #![trigger m.times(x, factor), m.times(high, factor)]
        !m.less(high, x) && m.less_eq(m.zero(), factor) ==> !m.less(
            m.times(high, factor),
            m.times(x, factor),
        )
    &&& forall|x: F, d: F|
        m.less(m.zero(), d) && !m.less(d, x) ==> !m.less(m.ratio(1, 1), #[trigger] m.over(x, d))
    &&& forall|x: F| alike(m, #[trigger] m.times(m.ratio(1, 1), x), x)
    &&& alike(m, m.plus(m.ratio(1, 1), m.ratio(1, 1)), m.ratio(2, 1))
}

/// Numbers that are like the same number are alike.
pub proof fn lemma_alike<F>(m: Model<F>, x: F, y: F, z: F)
    requires
        tells_no_zeros_apart(m),
        alike(m, x, y),
        alike(m, y, z),
    ensures
        alike(m, x, z),
        alike(m, y, x),
        alike(m, z, x),
{
}

/// A difference taken the other way round has the other sign.
pub proof fn lemma_turned_difference<F>(m: Model<F>, x: F, y: F)
    requires
        turns_signs(m),
    ensures
        alike(m, m.minus(y, x), m.neg(m.minus(x, y))),
{
    let turned = m.plus(m.neg(x), m.neg(m.neg(y)));
    let sum = m.plus(x, m.neg(y));
    lemma_alike(m, m.minus(y, x), m.plus(y, m.neg(x)), m.plus(m.neg(x), y));
    assert(alike(m, m.neg(m.neg(y)), y));
    lemma_alike(m, y, y, y);
    assert(alike(m, turned, m.plus(m.neg(x), y)));
    lemma_alike(m, turned, m.plus(m.neg(x), y), m.plus(m.neg(x), y));
    lemma_alike(m, m.minus(y, x), m.plus(m.neg(x), y), turned);
    assert(alike(m, turned, m.neg(sum)));
    assert(alike(m, m.minus(x, y), sum));
    assert(alike(m, m.neg(m.minus(x, y)), m.neg(sum)));
    lemma_alike(m, m.neg(m.minus(x, y)), m.neg(sum), m.neg(sum));
    lemma_alike(m, turned, m.neg(sum), m.neg(m.minus(x, y)));
    lemma_alike(m, m.minus(y, x), turned, m.neg(m.minus(x, y)));
}

/// A product whose first factor has the other sign has the other sign.
pub proof fn lemma_turned_product<F>(m: Model<F>, x: F, turned: F, factor: F)
    requires
        turns_signs(m),
        alike(m, turned, m.neg(x)),
    ensures
        alike(m, m.times(turned, factor), m.neg(m.times(x, factor))),
{
    assert(alike(m, m.times(turned, factor), m.times(m.neg(x), factor)));
    lemma_alike(
        m,
        m.times(turned, factor),
        m.times(m.neg(x), factor),
        m.neg(m.times(x, factor)),
    );
}

/// A sum of numbers that have the other sign has the other sign.
pub proof fn lemma_turned_sum<F>(m: Model<F>, x: F, y: F, turned_x: F, turned_y: F)
    requires
        turns_signs(m),
        alike(m, turned_x, m.neg(x)),
        alike(m, turned_y, m.neg(y)),
    ensures
        alike(m, m.plus(turned_x, turned_y), m.neg(m.plus(x, y))),
{
    assert(alike(m, m.plus(turned_x, turned_y), m.plus(m.neg(x), m.neg(y))));
    lemma_alike(
        m,
        m.plus(turned_x, turned_y),
        m.plus(m.neg(x), m.neg(y)),
        m.neg(m.plus(x, y)),
    );
}

/// The difference of two amounts of which neither is below zero, as a part of
/// their sum, lies from -1 to 1.
pub proof fn lemma_contrast<F>(m: Model<F>, x: F, y: F)
    requires
        keeps_bounds(m),
        m.less_eq(m.zero(), x),
        m.less_eq(m.zero(), y),
        m.less(m.zero(), m.plus(x, y)),
    ensures
        !m.less(m.ratio(1, 1), m.over(m.minus(x, y), m.plus(x, y))),
        !m.less(m.over(m.minus(x, y), m.plus(x, y)), m.neg(m.ratio(1, 1))),
{
    lemma_difference_within_sum(m, x, y);
    lemma_difference_within_sum(m, y, x);
    let total = m.plus(x, y);
    let part = m.over(m.minus(x, y), total);
    let other = m.over(m.minus(y, x), total);
    lemma_alike(m, m.plus(y, x), total, total);
    lemma_alike(m, m.minus(y, x), m.minus(y, x), m.minus(y, x));
    assert(m.less(m.plus(y, x), m.minus(y, x)) == m.less(total, m.minus(y, x)));
    assert(!m.less(m.ratio(1, 1), other));
    lemma_turned_difference(m, x, y);
    assert(alike(m, other, m.over(m.neg(m.minus(x, y)), total)));
    lemma_alike(m, other, m.over(m.neg(m.minus(x, y)), total), m.neg(part));
    assert(!m.less(m.ratio(1, 1), m.neg(part)));
    assert(m.less(m.neg(m.neg(part)), m.neg(m.ratio(1, 1))) == m.less(m.ratio(1, 1), m.neg(part)));
    assert(m.less(part, m.neg(m.ratio(1, 1))) == m.less(
        m.neg(m.neg(part)),
        m.neg(m.ratio(1, 1)),
    ));
}

/// What is not below zero leaves no more when it is taken away than when it is
/// added.
proof fn lemma_difference_within_sum<F>(m: Model<F>, x: F, y: F)
    requires
        keeps_bounds(m),
        m.less_eq(m.zero(), y),
    ensures
        !m.less(m.plus(x, y), m.minus(x, y)),
{
    let zero = m.zero();
    assert(m.less(m.neg(zero), m.neg(y)) == m.less(y, zero));
    assert(m.less(zero, m.neg(y)) == m.less(m.neg(zero), m.neg(y)));
    assert(!m.less(y, m.neg(y)));
    assert(!m.less(x, x));
    let widened = m.minus(x, m.neg(y));
    assert(!m.less(widened, m.minus(x, y)));
    assert(alike(m, m.neg(m.neg(y)), y));
    assert(alike(m, m.plus(x, m.neg(m.neg(y))), m.plus(x, y)));
    lemma_alike(m, widened, m.plus(x, m.neg(m.neg(y))), m.plus(x, y));
    assert(m.less(widened, m.minus(x, y)) == m.less(m.plus(x, y), m.minus(x, y)));
}

/// A sum of numbers of which none is below zero is not below zero.
pub proof fn lemma_sum_not_below_zero<F>(m: Model<F>, list: Seq<F>)
    requires
        keeps_bounds(m),
        forall|i: int| 0 <= i < list.len() ==> m.less_eq(m.zero(), #[trigger] list[i]),
    ensures
        m.less_eq(m.zero(), m.sum(list)),
    decreases list.len(),
{
    if list.len() > 0 {
        let front = list.drop_last();
        assert forall|i: int| 0 <= i < front.len() implies m.less_eq(
            m.zero(),
            #[trigger] front[i],
        ) by {
            assert(front[i] == list[i]);
        }
        lemma_sum_not_below_zero(m, front);
        assert(m.less_eq(m.zero(), list[list.len() - 1]));
    }
}

// ---------------------------------------------------------------------------
// Exact arithmetic
// ---------------------------------------------------------------------------

/// Whether an arithmetic computes exactly: `v` gives the value of each number,
/// and every step has the value that mathematics gives it. Quotients have to
/// have a divisor other than zero.
pub open spec fn is_exact<F>(m: Model<F>, v: spec_fn(F) -> real) -> bool {
    &&& forall|n: int, d: int|
        i64::MIN <= n <= i64::MAX && 0 < d <= u64::MAX ==> v(#[trigger] m.ratio(n, d))
            == n as real / d as real
    &&& forall|n: u64| v(#[trigger] m.count(n)) == n as real
    &&& forall|x: F| v(#[trigger] m.neg(x)) == -v(x)
    &&& forall|x: F|
        v(#[trigger] m.abs(x)) == (if v(x) < 0real {
            -v(x)
        } else {
            v(x)
        })
    &&& forall|x: F| v(#[trigger] m.square(x)) == v(x) * v(x)
    &&& forall|x: F, y: F| v(#[trigger] m.plus(x, y)) == v(x) + v(y)
    &&& forall|x: F, y: F| v(#[trigger] m.minus(x, y)) == v(x) - v(y)
    &&& forall|x: F, y: F| v(#[trigger] m.times(x, y)) == v(x) * v(y)
    &&& forall|x: F, y: F| v(y) != 0real ==> v(#[trigger] m.over(x, y)) == v(x) / v(y)
    &&& forall|x: F, y: F|
        v(#[trigger] m.greater(x, y)) == (if v(x) < v(y) {
            v(y)
        } else {
            v(x)
        })
    &&& forall|x: F, y: F|
        v(#[trigger] m.lesser(x, y)) == (if v(y) < v(x) {
            v(y)
        } else {
            v(x)
        })
    &&& forall|x: F, y: F| #[trigger] m.less(x, y) == (v(x) < v(y))
    &&& forall|x: F, y: F| #[trigger] m.less_eq(x, y) == (v(x) <= v(y))
    &&& forall|x: F, y: F| #[trigger] m.equal(x, y) == (v(x) == v(y))
}

/// The value of a whole number.
pub open spec fn whole_value(n: int) -> real {
    n as real
}

/// Whether a value is a whole number.
pub open spec fn is_whole(value: real) -> bool {
    exists|n: int| value == #[trigger] whole_value(n)
}

/// Whether an arithmetic rounds exactly: down and to the nearest whole number,
/// and cuts off what is behind the point of a number that is not below zero.
pub open spec fn rounds_exactly<F>(m: Model<F>, v: spec_fn(F) -> real) -> bool {
    &&& is_exact(m, v)
    &&& forall|x: F|
        is_whole(v(#[trigger] m.floor(x))) && v(m.floor(x)) <= v(x) < v(m.floor(x)) + 1real
    &&& forall|x: F|
        is_whole(v(#[trigger] m.round(x))) && v(x) - (1real / 2real) <= v(m.round(x)) <= v(x) + (1real / 2real)
    &&& forall|x: F|
        0real <= v(x) < u64::MAX as real ==> ((#[trigger] (m.whole)(x)) as real) <= v(x) < ((
        m.whole)(x) as real) + 1real
}

/// A quotient times its divisor is the dividend.
pub proof fn lemma_quotient(x: real, y: real)
    requires
        y != 0real,
    ensures
        (x / y) * y == x,
{
    assert((x / y) * y == x) by (nonlinear_arith)
        requires
            y != 0real,
    ;
}

/// A whole number has its own value.
pub proof fn lemma_whole_number<F>(m: Model<F>, v: spec_fn(F) -> real, n: int)
    requires
        is_exact(m, v),
        i64::MIN <= n <= i64::MAX,
    ensures
        v(m.ratio(n, 1)) == n as real,
{
    let x = n as real;
    assert(v(m.ratio(n, 1)) == x / (1int as real));
    assert(1int as real == 1real);
    assert(x / 1real == x) by (nonlinear_arith);
}

/// A fraction times its denominator is its numerator.
pub proof fn lemma_fraction<F>(m: Model<F>, v: spec_fn(F) -> real, n: int, d: int)
    requires
        is_exact(m, v),
        i64::MIN <= n <= i64::MAX,
        0 < d <= u64::MAX,
    ensures
        v(m.ratio(n, d)) * (d as real) == n as real,
{
    lemma_quotient(n as real, d as real);
}

/// The values of numbers.
pub open spec fn values<F>(v: spec_fn(F) -> real, list: Seq<F>) -> Seq<real> {
    Seq::new(list.len(), |i: int| v(list[i]))
}

/// The sum of values.
pub open spec fn total(list: Seq<real>) -> real
    decreases list.len(),
{
    if list.len() == 0 {
        0real
    } else {
        total(list.drop_last()) + list.last()
    }
}

/// In exact arithmetic the numbers of a list, added up, have the sum of their
/// values.
pub proof fn law_sum_is_the_total<F>(m: Model<F>, v: spec_fn(F) -> real, list: Seq<F>)
    requires
        is_exact(m, v),
    ensures
        v(m.sum(list)) == total(values(v, list)),
    decreases list.len(),
{
    if list.len() > 0 {
        law_sum_is_the_total(m, v, list.drop_last());
        assert(values(v, list).drop_last() =~= values(v, list.drop_last()));
    } else {
        assert(v(m.ratio(0, 1)) == 0real / 1real);
    }
}

/// A total lies between as many times the least and the greatest value.
pub proof fn lemma_total_within(list: Seq<real>, low: real, high: real)
    requires
        forall|i: int| 0 <= i < list.len() ==> low <= #[trigger] list[i] <= high,
    ensures
        low * (list.len() as real) <= total(list) <= high * (list.len() as real),
    decreases list.len(),
{
    let n = list.len() as real;
    if list.len() > 0 {
        let front = list.drop_last();
        assert forall|i: int| 0 <= i < front.len() implies low <= #[trigger] front[i] <= high by {
            assert(front[i] == list[i]);
        }
        lemma_total_within(front, low, high);
        let k = front.len() as real;
        assert(n == k + 1real);
        assert(low <= list[list.len() - 1] <= high);
        assert(low * (k + 1real) == low * k + low) by (nonlinear_arith);
        assert(high * (k + 1real) == high * k + high) by (nonlinear_arith);
    } else {
        assert(n == 0real);
        assert(low * 0real == 0real) by (nonlinear_arith);
        assert(high * 0real == 0real) by (nonlinear_arith);
    }
}

/// In exact arithmetic the mean of numbers, as often as there are numbers, makes
/// up their sum.
pub proof fn law_mean_makes_up_the_sum<F>(m: Model<F>, v: spec_fn(F) -> real, list: Seq<F>)
    requires
        is_exact(m, v),
        0 < list.len() <= u64::MAX,
    ensures
        v(m.mean(list)) * (list.len() as real) == total(values(v, list)),
{
    law_sum_is_the_total(m, v, list);
    let n = list.len() as real;
    let sum = v(m.sum(list));
    assert(v(m.count(list.len() as u64)) == n);
    assert((sum / n) * n == sum) by (nonlinear_arith)
        requires
            n > 0real,
    ;
}

/// In exact arithmetic the mean of numbers lies within every bounds within which
/// all of them lie.
pub proof fn law_mean_lies_within<F>(
    m: Model<F>,
    v: spec_fn(F) -> real,
    list: Seq<F>,
    low: real,
    high: real,
)
    requires
        is_exact(m, v),
        0 < list.len() <= u64::MAX,
        forall|i: int| 0 <= i < list.len() ==> low <= v(#[trigger] list[i]) <= high,
    ensures
        low <= v(m.mean(list)) <= high,
{
    law_mean_makes_up_the_sum(m, v, list);
    let all = values(v, list);
    assert forall|i: int| 0 <= i < all.len() implies low <= #[trigger] all[i] <= high by {
        assert(all[i] == v(list[i]));
    }
    lemma_total_within(all, low, high);
    let n = list.len() as real;
    let mean = v(m.mean(list));
    assert(low <= mean <= high) by (nonlinear_arith)
        requires
            n > 0real,
            low * n <= mean * n <= high * n,
    ;
}

/// A total without one of its values is less by that value.
pub proof fn lemma_total_without(list: Seq<real>, i: int)
    requires
        0 <= i < list.len(),
    ensures
        total(list) == total(list.remove(i)) + list[i],
    decreases list.len(),
{
    if i == list.len() - 1 {
        assert(list.remove(i) =~= list.drop_last());
    } else {
        lemma_total_without(list.drop_last(), i);
        assert(list.remove(i).drop_last() =~= list.drop_last().remove(i));
    }
}

/// A total does not depend on the order of the values.
pub proof fn lemma_total_in_any_order(list: Seq<real>, other: Seq<real>)
    requires
        list.to_multiset() == other.to_multiset(),
    ensures
        total(list) == total(other),
        list.len() == other.len(),
    decreases list.len(),
{
    broadcast use vstd::seq_lib::group_to_multiset_ensures;

    assert(list.len() == list.to_multiset().len());
    assert(other.len() == other.to_multiset().len());
    if list.len() > 0 {
        let n = list.len() - 1;
        assert(list.to_multiset().count(list[n]) > 0) by {
            assert(list.contains(list[n]));
        }
        assert(other.contains(list[n]));
        let j = choose|j: int| 0 <= j < other.len() && other[j] == list[n];
        lemma_total_without(other, j);
        lemma_total_without(list, n);
        assert(list.remove(n).to_multiset() =~= list.to_multiset().remove(list[n]));
        assert(other.remove(j).to_multiset() =~= other.to_multiset().remove(other[j]));
        lemma_total_in_any_order(list.remove(n), other.remove(j));
    }
}

/// The arithmetic of the real numbers.
pub open spec fn real_arithmetic() -> Model<real> {
    Model {
        eval: |term: Term<real>|
            match term {
                Term::Ratio(n, d) => n as real / d as real,
                Term::Count(n) => n as real,
                Term::Neg(x) => -x,
                Term::Abs(x) => if x < 0real {
                    -x
                } else {
                    x
                },
                Term::Square(x) => x * x,
                Term::Add(x, y) => x + y,
                Term::Sub(x, y) => x - y,
                Term::Mul(x, y) => x * y,
                Term::Div(x, y) => x / y,
                Term::Max(x, y) => if x < y {
                    y
                } else {
                    x
                },
                Term::Min(x, y) => if y < x {
                    y
                } else {
                    x
                },
                _ => 0real,
            },
        test: |comparison: Test<real>|
            match comparison {
                Test::Less(x, y) => x < y,
                Test::LessEq(x, y) => x <= y,
                Test::Equal(x, y) => x == y,
                Test::Finite(_) => true,
            },
        whole: |x: real| 0u64,
        text: |x: real, style: Style| Seq::empty(),
        parse: |text: Seq<char>| Ok(0real),
    }
}

/// There is an arithmetic that computes exactly: that of the real numbers.
pub proof fn law_exact_arithmetic_exists()
    ensures
        is_exact(real_arithmetic(), |x: real| x),
{
}

// ---------------------------------------------------------------------------
// Two precisions
// ---------------------------------------------------------------------------

/// Conversion between numbers of type `F`, in which prices and times are
/// measured, and numbers of a coarser type `P`, in which the screen is.
pub trait Rounding<F, P> {
    /// The coarse number nearest to a number.
    fn narrow(&self, number: F) -> P;

    /// A coarse number as it is.
    fn widen(&self, number: P) -> F;
}

/// What arithmetic in two precisions returns, as mathematical functions.
#[verifier::reject_recursive_types(F)]
#[verifier::reject_recursive_types(P)]
pub struct Screen<F, P> {
    pub fine: Model<F>,
    pub coarse: Model<P>,
    pub narrow: spec_fn(F) -> P,
    pub widen: spec_fn(P) -> F,
}

/// Whether the functions of a screen are those of an arithmetic.
pub open spec fn depicts<F, P, A: Arithmetic<F> + Arithmetic<P> + Rounding<F, P>>(
    o: Screen<F, P>,
    a: A,
) -> bool {
    &&& describes(o.fine, a)
    &&& describes(o.coarse, a)
    &&& forall|number: F, r: P| #[trigger]
        call_ensures(<A as Rounding<F, P>>::narrow, (&a, number), r) ==> r == (o.narrow)(number)
    &&& forall|number: P, r: F| #[trigger]
        call_ensures(<A as Rounding<F, P>>::widen, (&a, number), r) ==> r == (o.widen)(number)
}

/// The coarse number nearest to a number.
pub fn narrow<F, P, A: Arithmetic<F> + Arithmetic<P> + Rounding<F, P>>(a: &A, number: F) -> (r: P)
    ensures
        forall|o: Screen<F, P>| #[trigger] depicts(o, *a) ==> r == (o.narrow)(number),
{
    apply(<A as Rounding<F, P>>::narrow, a, number)
}

/// A coarse number as it is.
pub fn widen<F, P, A: Arithmetic<F> + Arithmetic<P> + Rounding<F, P>>(a: &A, number: P) -> (r: F)
    ensures
        forall|o: Screen<F, P>| #[trigger] depicts(o, *a) ==> r == (o.widen)(number),
{
    apply(<A as Rounding<F, P>>::widen, a, number)
}

} // verus!
