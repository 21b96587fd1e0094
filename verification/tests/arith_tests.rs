//! The laws of arithmetic on which the library's laws rest, tried on `f64`.

use openbook::arith::{Arithmetic, Style, Term, Test};

/// Arithmetic on `f64`, and on `f32` for the screen.
struct Num;

impl Arithmetic<f64> for Num {
    fn eval(&self, term: Term<f64>) -> f64 {
        match term {
            Term::Ratio(n, d) => n as f64 / d as f64,
            Term::Count(n) => n as f64,
            Term::Infinity => f64::INFINITY,
            Term::NegInfinity => f64::NEG_INFINITY,
            Term::Neg(x) => -x,
            Term::Abs(x) => x.abs(),
            Term::Square(x) => x.powi(2),
            Term::Sqrt(x) => x.sqrt(),
            Term::Ln(x) => x.ln(),
            Term::Floor(x) => x.floor(),
            Term::Ceil(x) => x.ceil(),
            Term::Round(x) => x.round(),
            Term::Add(x, y) => x + y,
            Term::Sub(x, y) => x - y,
            Term::Mul(x, y) => x * y,
            Term::Div(x, y) => x / y,
            Term::Max(x, y) => x.max(y),
            Term::Min(x, y) => x.min(y),
        }
    }

    fn test(&self, comparison: Test<f64>) -> bool {
        match comparison {
            Test::Less(x, y) => x < y,
            Test::LessEq(x, y) => x <= y,
            Test::Equal(x, y) => x == y,
            Test::Finite(x) => x.is_finite(),
        }
    }

    fn whole(&self, number: f64) -> u64 {
        number as u64
    }

    fn text(&self, number: f64, style: Style) -> String {
        match style {
            Style::Shortest => format!("{}", number),
            Style::Fixed(p) => format!("{:.*}", p, number),
            Style::Signed(p) => format!("{:+.*}", p, number),
        }
    }

    fn parse(&self, text: &str) -> Result<f64, String> {
        text.parse::<f64>().map_err(|e| e.to_string())
    }
}

const ZERO: f64 = 0.0;

fn samples() -> Vec<f64> {
    let plain = [
        0.0, 5e-324, 1e-300, 1e-12, 0.1, 0.3, 0.7, 1.0, 1.5, 2.0, 3.0, 50.0, 100.0, 1e16, 1e300,
        f64::MAX, f64::INFINITY, f64::NAN,
    ];
    let mut list: Vec<f64> = plain.to_vec();
    list.extend(plain.iter().map(|x| -x));
    list
}

fn eval(term: Term<f64>) -> f64 {
    Num.eval(term)
}

fn less(x: f64, y: f64) -> bool {
    Num.test(Test::Less(x, y))
}

fn less_eq(x: f64, y: f64) -> bool {
    Num.test(Test::LessEq(x, y))
}

fn equal(x: f64, y: f64) -> bool {
    Num.test(Test::Equal(x, y))
}

fn neg(x: f64) -> f64 {
    eval(Term::Neg(x))
}

fn plus(x: f64, y: f64) -> f64 {
    eval(Term::Add(x, y))
}

fn minus(x: f64, y: f64) -> f64 {
    eval(Term::Sub(x, y))
}

fn times(x: f64, y: f64) -> f64 {
    eval(Term::Mul(x, y))
}

fn over(x: f64, y: f64) -> f64 {
    eval(Term::Div(x, y))
}

fn alike(x: f64, y: f64) -> bool {
    equal(x, y) || (!equal(x, x) && !equal(y, y))
}

#[test]
fn like_numbers_give_like_results() {
    let list = samples();
    for &x in &list {
        for &u in &list {
            if !alike(x, u) {
                continue;
            }
            assert!(alike(neg(x), neg(u)));
            for &y in &list {
                for &v in &list {
                    if !alike(y, v) {
                        continue;
                    }
                    assert_eq!(less(x, y), less(u, v));
                    assert!(alike(plus(x, y), plus(u, v)));
                    assert!(alike(minus(x, y), minus(u, v)));
                    assert!(alike(times(x, y), times(u, v)));
                    if less(ZERO, y) {
                        assert!(alike(over(x, y), over(u, v)));
                    }
                }
            }
        }
    }
}

#[test]
fn signs_go_through_operations() {
    let list = samples();
    assert!(alike(neg(ZERO), ZERO));
    assert!(alike(plus(ZERO, ZERO), ZERO));
    for &x in &list {
        assert!(alike(neg(neg(x)), x));
        for &y in &list {
            assert!(!(less(x, y) && less(y, x)));
            assert_eq!(less(neg(x), neg(y)), less(y, x));
            assert!(alike(plus(x, y), plus(y, x)));
            assert!(alike(plus(neg(x), neg(y)), neg(plus(x, y))));
            assert!(alike(minus(x, y), plus(x, neg(y))));
            assert!(alike(times(neg(x), y), neg(times(x, y))));
            assert!(alike(over(neg(x), y), neg(over(x, y))));
        }
    }
}

#[test]
fn bounds_go_through_operations() {
    let list = samples();
    let one = eval(Term::Ratio(1, 1));
    assert!(alike(plus(one, one), eval(Term::Ratio(2, 1))));
    assert!(less_eq(ZERO, eval(Term::Ratio(0, u64::MAX))));
    assert!(less(ZERO, eval(Term::Ratio(1, u64::MAX))));
    for &x in &list {
        assert!(alike(times(one, x), x));
        for &y in &list {
            if less_eq(x, y) {
                assert!(!less(y, x) && equal(y, y));
            }
            if less_eq(ZERO, x) && less_eq(ZERO, y) {
                assert!(less_eq(ZERO, plus(x, y)));
            }
            if less(ZERO, y) && !less(y, x) {
                assert!(!less(one, over(x, y)));
            }
            for &z in &list {
                if less_eq(x, y) && less(y, z) {
                    assert!(less(x, z));
                }
                if less(x, y) && equal(z, z) {
                    assert!(less(x, z) || less(z, y));
                }
                if !less(y, x) && less_eq(ZERO, z) {
                    assert!(!less(times(y, z), times(x, z)));
                }
                for &low in &list {
                    if !less(z, x) && !less(y, low) {
                        assert!(!less(minus(z, low), minus(x, y)));
                    }
                }
            }
        }
    }
}

fn greater(x: f64, y: f64) -> f64 {
    eval(Term::Max(x, y))
}

/// The order of the ladder's bins.
fn key_before(x: f64, y: f64) -> bool {
    equal(x, x) && !less_eq(y, x)
}

#[test]
fn numbers_are_ordered() {
    let list = samples();
    for &x in &list {
        for &y in &list {
            assert!(!(less(x, y) && less(y, x)));
            assert!(!less(greater(x, y), x) && !less(greater(x, y), y));
            assert!(!(key_before(x, y) && key_before(y, x)));
            for &z in &list {
                if equal(y, y) && !less(x, y) && !less(y, z) {
                    assert!(!less(x, z));
                }
                if key_before(x, y) && key_before(y, z) {
                    assert!(key_before(x, z));
                }
            }
        }
    }
}
