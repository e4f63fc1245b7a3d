use fwumious_wabbit::arith::{Operation, Request};
use fwumious_wabbit::bits::{
    abs_bits, equal, greater, is_finite, is_nan, is_zero, less, negate, FIFTY, HALF, INFINITY, ONE,
    SIGN, TWO, ZERO,
};
use fwumious_wabbit::block_affm::{ATTENTION_CEILING, SQRT_OF_ONE_HALF};
use fwumious_wabbit::block_loss_functions::{LOGIT_CEILING, LOGIT_FLOOR};
use fwumious_wabbit::model_instance::{ONE_QUARTER, ONE_TENTH};
use fwumious_wabbit::regressor::TEN;
use fwumious_wabbit::update::settle;

fn samples() -> Vec<f32> {
    vec![
        0.0,
        -0.0,
        f32::MIN_POSITIVE,
        -f32::MIN_POSITIVE,
        1.0e-45,
        -1.0e-45,
        1.0e-40,
        0.1,
        -0.1,
        0.5,
        1.0,
        -1.0,
        1.2,
        1.2000002,
        1.1999999,
        2.0,
        -2.0,
        49.999996,
        50.0,
        50.000004,
        -50.0,
        -50.000004,
        3.0e38,
        -3.0e38,
        f32::MAX,
        f32::MIN,
        f32::INFINITY,
        f32::NEG_INFINITY,
        f32::NAN,
        -f32::NAN,
        f32::from_bits(0x7f80_0001),
        f32::from_bits(0xffff_ffff),
    ]
}

#[test]
fn constants_are_the_numbers_they_name() {
    assert_eq!(ZERO, 0.0f32.to_bits());
    assert_eq!(HALF, 0.5f32.to_bits());
    assert_eq!(ONE, 1.0f32.to_bits());
    assert_eq!(TWO, 2.0f32.to_bits());
    assert_eq!(TEN, 10.0f32.to_bits());
    assert_eq!(FIFTY, 50.0f32.to_bits());
    assert_eq!(SIGN, (-0.0f32).to_bits());
    assert_eq!(INFINITY, f32::INFINITY.to_bits());
    assert_eq!(LOGIT_CEILING, 50.0f32.to_bits());
    assert_eq!(LOGIT_FLOOR, (-50.0f32).to_bits());
    assert_eq!(ATTENTION_CEILING, 1.2f32.to_bits());
    assert_eq!(SQRT_OF_ONE_HALF, 0.70710678118f32.to_bits());
    assert_eq!(ONE_TENTH, 0.1f32.to_bits());
    assert_eq!(ONE_QUARTER, 0.25f32.to_bits());
}

#[test]
fn comparisons_agree_with_the_machine() {
    for x in samples() {
        for y in samples() {
            let (a, b) = (x.to_bits(), y.to_bits());
            assert_eq!(less(a, b), x < y, "{} < {}", x, y);
            assert_eq!(greater(a, b), x > y, "{} > {}", x, y);
            assert_eq!(equal(a, b), x == y, "{} == {}", x, y);
        }
    }
}

#[test]
fn classes_agree_with_the_machine() {
    for x in samples() {
        let a = x.to_bits();
        assert_eq!(is_nan(a), x.is_nan(), "{}", x);
        assert_eq!(is_finite(a), x.is_finite(), "{}", x);
        assert_eq!(is_zero(a), x == 0.0, "{}", x);
        assert_eq!(abs_bits(a), x.abs().to_bits(), "{}", x);
        assert_eq!(negate(a), (-x).to_bits(), "{}", x);
    }
}

fn settle_by_machine(moved: f32, snap: f32) -> f32 {
    let mut w = moved;
    if snap != 0.0 {
        if w < snap {
            w = 0.0;
        }
    }
    if w > 1.2 {
        w = 1.2;
    }
    w
}

#[test]
fn settle_agrees_with_the_machine() {
    for moved in samples() {
        for snap in samples() {
            let r = settle(moved.to_bits(), snap.to_bits());
            assert_eq!(r, settle_by_machine(moved, snap).to_bits(), "{} {}", moved, snap);
        }
    }
}

#[test]
fn settle_snaps_and_clamps() {
    let s = |moved: f32, snap: f32| f32::from_bits(settle(moved.to_bits(), snap.to_bits()));
    assert_eq!(s(0.7, 0.0), 0.7);
    assert_eq!(s(1.2, 0.0), 1.2);
    assert_eq!(s(1.2000002, 0.0), 1.2);
    assert_eq!(s(1000.0, 0.0), 1.2);
    assert_eq!(s(f32::INFINITY, 0.0), 1.2);
    assert_eq!(s(0.19, 0.2), 0.0);
    assert_eq!(s(0.2, 0.2), 0.2);
    assert_eq!(s(-3.0, 0.2), 0.0);
    assert_eq!(s(-3.0, 0.0), -3.0);
    assert!(s(f32::NAN, 0.2).is_nan());
}

/// The arithmetic unit of the machine.
fn unit(q: Request) -> u32 {
    let a = f32::from_bits(q.a);
    let b = f32::from_bits(q.b);
    let r = match q.op {
        Operation::Add => a + b,
        Operation::Sub => a - b,
        Operation::Mul => a * b,
        Operation::Div => a / b,
        Operation::Exp => a.exp(),
        Operation::Pow => a.powf(b),
        Operation::Sqrt => a.sqrt(),
        Operation::FromCount => q.a as f32,
    };
    r.to_bits()
}

fn ask(op: Operation, a: f32, b: f32) -> u32 {
    unit(Request { op, a: a.to_bits(), b: b.to_bits() })
}

fn nothing(x: u32) -> bool {
    is_zero(x) || is_nan(x)
}

#[test]
fn the_machine_keeps_nothing_as_nothing() {
    let nothings = [0.0f32, -0.0, f32::NAN, -f32::NAN];
    for x in samples() {
        // a number less itself is nothing
        assert!(nothing(ask(Operation::Sub, x, x)), "{} - {}", x, x);
        for n in nothings {
            assert!(nothing(ask(Operation::Mul, n, x)), "{} * {}", n, x);
            assert!(nothing(ask(Operation::Mul, x, n)), "{} * {}", x, n);
        }
    }
    for a in nothings {
        for b in nothings {
            assert!(nothing(ask(Operation::Add, a, b)), "{} + {}", a, b);
            assert!(nothing(ask(Operation::Sub, a, b)), "{} - {}", a, b);
        }
    }
}

#[test]
fn the_machine_links_zero_to_one_half() {
    assert_eq!(ask(Operation::Exp, 0.0, 0.0), ONE);
    assert_eq!(ask(Operation::Exp, -0.0, 0.0), ONE);
    assert_eq!(ask(Operation::Add, 1.0, 1.0), TWO);
    assert_eq!(ask(Operation::Div, 1.0, 2.0), HALF);
}

#[test]
fn the_machine_answers_every_operation() {
    assert_eq!(ask(Operation::Add, 1.5, 2.25), 3.75f32.to_bits());
    assert_eq!(ask(Operation::Sub, 1.5, 2.25), (-0.75f32).to_bits());
    assert_eq!(ask(Operation::Mul, 1.5, 2.25), 3.375f32.to_bits());
    assert_eq!(ask(Operation::Div, 1.5, 0.25), 6.0f32.to_bits());
    assert_eq!(ask(Operation::Exp, 1.0, 0.0), std::f32::consts::E.to_bits());
    assert_eq!(ask(Operation::Pow, 9.0, -0.5), (1.0f32 / 3.0).to_bits());
    assert_eq!(ask(Operation::Sqrt, 6.25, 0.0), 2.5f32.to_bits());
    assert_eq!(unit(Request { op: Operation::FromCount, a: 7, b: 0 }), 7.0f32.to_bits());
}
