use fwumious_wabbit::arith::{Operation, Request};
use fwumious_wabbit::feature_buffer::{FeatureBuffer, HashAndValue};
use fwumious_wabbit::fixed_regressor::FixedRegressor;
use fwumious_wabbit::model_instance::ModelInstance;
use fwumious_wabbit::optimizer::FASTMATH_LR_LUT_BITS;
use fwumious_wabbit::regressor::Regressor;

/// The arithmetic unit of the machine.
fn unit(q: Request) -> u32 {
    let a = f32::from_bits(q.a);
    let b = f32::from_bits(q.b);
    let r = match q.op {
        Operation::Add => a + b,
        Operation::Sub => a - b,
        Operation::Mul => a * b,
        Operation::Div => a / b,
        Operation::Exp => a.exp(),
        Operation::Pow => a.powf(b),
        Operation::Sqrt => a.sqrt(),
        Operation::FromCount => q.a as f32,
    };
    r.to_bits()
}

fn bits(x: f32) -> u32 {
    x.to_bits()
}

fn feature(hash: u32, value: f32) -> HashAndValue {
    HashAndValue { hash, value: bits(value) }
}

fn lr_vec(v: Vec<HashAndValue>) -> FeatureBuffer {
    FeatureBuffer {
        label: bits(0.0),
        example_importance: bits(1.0),
        example_number: 0,
        lr_buffer: v,
        ffm_buffer: Vec::new(),
        ffm_fields_count: 0,
        ffm_buffers: Vec::new(),
    }
}

fn ffm_vec(v: Vec<Vec<HashAndValue>>) -> FeatureBuffer {
    FeatureBuffer {
        label: bits(0.0),
        example_importance: bits(1.0),
        example_number: 0,
        lr_buffer: Vec::new(),
        ffm_buffer: Vec::new(),
        ffm_fields_count: 0,
        ffm_buffers: v,
    }
}

fn ffm_fixed_init(rg: &mut Regressor) {
    for i in rg.ffm_weights_offset as usize..rg.weights.len() {
        rg.weights[i].weight = bits(1.0);
        rg.weights[i].acc_grad = bits(1.0);
    }
}

fn learn(rr: &mut Regressor, fb: &FeatureBuffer, update: bool) -> f32 {
    f32::from_bits(rr.learn(fb, update, 0, &unit))
}

#[test]
fn test_learning_turned_off() {
    let mut mi = ModelInstance::new_empty();
    mi.learning_rate = bits(0.1);
    mi.power_t = bits(0.0);
    mi.bit_precision = 18;

    let mut rr = Regressor::new(&mi, &unit);
    // Empty model: no matter how many features, prediction is 0.5
    let mut p = learn(&mut rr, &lr_vec(vec![]), false);
    assert_eq!(p, 0.5);
    p = learn(&mut rr, &lr_vec(vec![feature(1, 1.0)]), false);
    assert_eq!(p, 0.5);
    p = learn(&mut rr, &lr_vec(vec![feature(1, 1.0), feature(2, 1.0)]), false);
    assert_eq!(p, 0.5);
}

#[test]
fn test_power_t_zero() {
    let mut mi = ModelInstance::new_empty();
    mi.learning_rate = bits(0.1);
    mi.power_t = bits(0.0);
    mi.bit_precision = 18;

    let mut rr = Regressor::new(&mi, &unit);
    let mut p = learn(&mut rr, &lr_vec(vec![feature(1, 1.0)]), true);
    assert_eq!(p, 0.5);
    p = learn(&mut rr, &lr_vec(vec![feature(1, 1.0)]), true);
    assert_eq!(p, 0.48750263);
    p = learn(&mut rr, &lr_vec(vec![feature(1, 1.0)]), true);
    assert_eq!(p, 0.47533244);
}

#[test]
fn test_double_same_feature() {
    // what happens on collision depends on the order of the arithmetic
    let mut mi = ModelInstance::new_empty();
    mi.learning_rate = bits(0.1);
    mi.power_t = bits(0.0);
    mi.bit_precision = 18;

    let mut rr = Regressor::new(&mi, &unit);
    let mut p = learn(&mut rr, &lr_vec(vec![feature(1, 1.0), feature(1, 2.0)]), true);
    assert_eq!(p, 0.5);
    p = learn(&mut rr, &lr_vec(vec![feature(1, 1.0), feature(1, 2.0)]), true);
    assert_eq!(p, 0.38936076);
    p = learn(&mut rr, &lr_vec(vec![feature(1, 1.0), feature(1, 2.0)]), true);
    assert_eq!(p, 0.30993468);
}

#[test]
fn test_power_t_half() {
    let mut mi = ModelInstance::new_empty();
    mi.learning_rate = bits(0.1);
    mi.power_t = bits(0.5);
    mi.bit_precision = 18;

    let mut rr = Regressor::new(&mi, &unit);
    let mut p = learn(&mut rr, &lr_vec(vec![feature(1, 1.0)]), true);
    assert_eq!(p, 0.5);
    p = learn(&mut rr, &lr_vec(vec![feature(1, 1.0)]), true);
    assert_eq!(p, 0.4750208);
    p = learn(&mut rr, &lr_vec(vec![feature(1, 1.0)]), true);
    assert_eq!(p, 0.45788094);
}

#[test]
fn test_power_t_half_fastmath() {
    let mut mi = ModelInstance::new_empty();
    mi.learning_rate = bits(0.1);
    mi.power_t = bits(0.5);
    mi.fastmath = true;
    mi.bit_precision = 18;

    let mut rr = Regressor::new(&mi, &unit);
    let mut p = learn(&mut rr, &lr_vec(vec![feature(1, 1.0)]), true);
    assert_eq!(p, 0.5);
    p = learn(&mut rr, &lr_vec(vec![feature(1, 1.0)]), true);
    if FASTMATH_LR_LUT_BITS == 12 {
        assert_eq!(p, 0.47539312);
    } else {
        assert_eq!(p, 0.475734);
    }
}

#[test]
fn test_power_t_half_two_features() {
    let mut mi = ModelInstance::new_empty();
    mi.learning_rate = bits(0.1);
    mi.power_t = bits(0.5);
    mi.bit_precision = 18;

    let mut rr = Regressor::new(&mi, &unit);
    // Here we take twice two features and then once just one
    let mut p = learn(&mut rr, &lr_vec(vec![feature(1, 1.0), feature(2, 1.0)]), true);
    assert_eq!(p, 0.5);
    p = learn(&mut rr, &lr_vec(vec![feature(1, 1.0), feature(2, 1.0)]), true);
    assert_eq!(p, 0.45016602);
    p = learn(&mut rr, &lr_vec(vec![feature(1, 1.0)]), true);
    assert_eq!(p, 0.45836908);
}

#[test]
fn test_non_one_weight() {
    let mut mi = ModelInstance::new_empty();
    mi.learning_rate = bits(0.1);
    mi.power_t = bits(0.0);
    mi.bit_precision = 18;

    let mut rr = Regressor::new(&mi, &unit);
    let mut p = learn(&mut rr, &lr_vec(vec![feature(1, 2.0)]), true);
    assert_eq!(p, 0.5);
    p = learn(&mut rr, &lr_vec(vec![feature(1, 2.0)]), true);
    assert_eq!(p, 0.45016602);
    p = learn(&mut rr, &lr_vec(vec![feature(1, 2.0)]), true);
    assert_eq!(p, 0.40611085);
}

#[test]
fn test_ffm() {
    let mut mi = ModelInstance::new_empty();
    mi.learning_rate = bits(0.1);
    mi.power_t = bits(0.0);
    mi.bit_precision = 18;
    mi.ffm_k = 1;
    mi.ffm_bit_precision = 18;
    mi.ffm_fields = vec![vec![]];

    // Nothing can be learned from a single field
    let mut rr = Regressor::new(&mi, &unit);
    let ffm_buf = ffm_vec(vec![vec![feature(1, 1.0)]]);
    let mut p = learn(&mut rr, &ffm_buf, true);
    assert_eq!(p, 0.5);
    p = learn(&mut rr, &ffm_buf, true);
    assert_eq!(p, 0.5);

    // With two fields, things start to happen
    let mut rr = Regressor::new(&mi, &unit);
    ffm_fixed_init(&mut rr);
    let ffm_buf = ffm_vec(vec![vec![feature(1, 1.0)], vec![feature(100, 1.0)]]);
    p = learn(&mut rr, &ffm_buf, true);
    assert_eq!(p, 0.7310586);
    p = learn(&mut rr, &ffm_buf, true);
    assert_eq!(p, 0.7024794);

    // Two fields, use values
    let mut rr = Regressor::new(&mi, &unit);
    ffm_fixed_init(&mut rr);
    let ffm_buf = ffm_vec(vec![vec![feature(1, 2.0)], vec![feature(100, 2.0)]]);
    p = learn(&mut rr, &ffm_buf, true);
    assert_eq!(p, 0.98201376);
    p = learn(&mut rr, &ffm_buf, true);
    assert_eq!(p, 0.81377685);
}

#[test]
fn fixed_regressor_predicts_what_the_regressor_learned() {
    let mut mi = ModelInstance::new_empty();
    mi.learning_rate = bits(0.1);
    mi.power_t = bits(0.0);
    mi.bit_precision = 18;
    let mut rr = Regressor::new(&mi, &unit);
    let fb = lr_vec(vec![feature(1, 1.0)]);
    assert_eq!(learn(&mut rr, &fb, true), 0.5);
    let fixed = FixedRegressor::new(rr);
    let p = f32::from_bits(fixed.predict(&fb, 0, &unit));
    assert_eq!(p, 0.48750263);
    assert_eq!(f32::from_bits(fixed.predict(&fb, 0, &unit)), p);
}

#[test]
fn frozen_regressor_can_be_shared() {
    let mut mi = ModelInstance::new_empty();
    mi.learning_rate = bits(0.1);
    mi.power_t = bits(0.0);
    mi.bit_precision = 10;
    mi.ffm_k = 2;
    mi.ffm_bit_precision = 10;
    mi.ffm_fields = vec![vec![], vec![]];
    let mut rr = Regressor::new(&mi, &unit);
    ffm_fixed_init(&mut rr);
    rr.weights[5].weight = bits(0.25);
    let kept = rr.weights.clone();
    let fixed = FixedRegressor::new(rr);
    assert!(fixed.is_wf());
    assert_eq!(*fixed.weights, kept);
    let again = fixed.clone();
    assert_eq!(*again.weights, kept);
    let third = fixed.handle();
    assert_eq!(*third.weights, kept);
    assert!(triomphe::Arc::ptr_eq(&third.weights, &fixed.weights));
    assert_eq!(third.ffm_k, 2);
    // plain weight 0.25 times 2, and one pair of features in two dimensions
    let mut fb = ffm_vec(vec![vec![feature(1, 1.0)], vec![feature(100, 1.0)]]);
    fb.lr_buffer = vec![feature(5, 2.0)];
    let p = f32::from_bits(fixed.predict(&fb, 0, &unit));
    assert_eq!(p, 1.0 / (1.0 + (-2.5f32).exp()));
    assert_eq!(f32::from_bits(fixed.take(&fb, &unit)), 2.5);
    assert_eq!(f32::from_bits(again.predict(&fb, 0, &unit)), p);
}

#[test]
fn examples_beyond_the_buffer_are_refused() {
    let mut mi = ModelInstance::new_empty();
    mi.bit_precision = 6;
    mi.ffm_k = 2;
    mi.ffm_bit_precision = 4;
    mi.ffm_fields = vec![vec![], vec![]];
    let rr = Regressor::new(&mi, &unit);
    assert!(rr.is_wf());
    assert!(rr.can_learn(&lr_vec(vec![feature(1, 1.0); 16196])));
    assert!(!rr.can_learn(&lr_vec(vec![feature(1, 1.0); 16197])));
    assert_eq!(rr.derived_features(&lr_vec(vec![feature(1, 1.0); 16196])), 16196);
    assert_eq!(rr.derived_features(&lr_vec(vec![feature(1, 1.0); 16197])), 16197);
    assert_eq!(rr.derived_features(&lr_vec(vec![feature(1, 1.0); 40000])), 16197);
    // the store holds 64 + 16 + 8 weights; the left feature reads on with
    // every feature of the right field
    let left = vec![feature(14, 1.0)];
    assert!(rr.can_learn(&ffm_vec(vec![left.clone(), vec![feature(3, 1.0); 5]])));
    assert!(!rr.can_learn(&ffm_vec(vec![left.clone(), vec![feature(3, 1.0); 6]])));
    assert_eq!(rr.derived_features(&ffm_vec(vec![left.clone(), vec![feature(3, 1.0); 6]])), 24);
    assert!(rr.can_learn(&ffm_vec(vec![vec![feature(3, 1.0); 6], left])));
}

#[test]
fn derived_features_count_every_pair_in_every_dimension() {
    let mut mi = ModelInstance::new_empty();
    mi.bit_precision = 6;
    mi.ffm_k = 2;
    mi.ffm_bit_precision = 12;
    mi.ffm_fields = vec![vec![], vec![], vec![]];
    let rr = Regressor::new(&mi, &unit);
    let fields = |a: usize, b: usize, c: usize| {
        ffm_vec(vec![vec![feature(0, 1.0); a], vec![feature(0, 1.0); b], vec![feature(0, 1.0); c]])
    };
    // 2 * 2 * (2 * 3 + 2 * 4 + 3 * 4)
    assert_eq!(rr.derived_features(&fields(2, 3, 4)), 104);
    assert_eq!(rr.derived_features(&fields(0, 3, 0)), 0);
    assert_eq!(rr.derived_features(&fields(5, 0, 7)), 140);
    let mut fb = fields(2, 3, 4);
    fb.lr_buffer = vec![feature(1, 1.0); 10];
    assert_eq!(rr.derived_features(&fb), 114);
    // what the logit touches is what was counted
    let (_, touched) = rr.take(&fb, &unit);
    assert_eq!(touched.len(), 114);
    // 4 * 63 * 64 = 16128, and 4 * 64 * 64 = 16384 is more than the buffer holds
    assert_eq!(rr.derived_features(&fields(63, 64, 0)), 16128);
    assert!(rr.can_learn(&fields(63, 64, 0)));
    assert_eq!(rr.derived_features(&fields(63, 64, 1)), 16197);
    assert_eq!(rr.derived_features(&fields(64, 0, 64)), 16197);
    assert!(!rr.can_learn(&fields(64, 0, 64)));
    let mut fb = fields(63, 64, 0);
    fb.lr_buffer = vec![feature(1, 1.0); 68];
    assert_eq!(rr.derived_features(&fb), 16196);
    fb.lr_buffer.push(feature(1, 1.0));
    assert_eq!(rr.derived_features(&fb), 16197);
    assert!(!rr.can_learn(&fb));
    assert_eq!(rr.derived_features(&fields(20000, 0, 0)), 0);
    assert_eq!(rr.derived_features(&fields(20000, 0, 1)), 16197);
    // without embeddings only the plain features count
    mi.ffm_k = 0;
    let plain = Regressor::new(&mi, &unit);
    assert_eq!(plain.derived_features(&fields(64, 64, 64)), 0);
}

#[test]
fn left_feature_reads_on_with_every_right_feature() {
    let mut mi = ModelInstance::new_empty();
    mi.learning_rate = bits(0.1);
    mi.power_t = bits(0.0);
    mi.bit_precision = 6;
    mi.ffm_k = 1;
    mi.ffm_bit_precision = 4;
    mi.ffm_fields = vec![vec![], vec![]];
    let mut rr = Regressor::new(&mi, &unit);
    for i in 64..80 {
        rr.weights[i].weight = bits((i - 63) as f32);
    }
    // left weights 3 and 4 (slots 66 and 67), right weights 6 and 8
    let fb = ffm_vec(vec![vec![feature(2, 1.0)], vec![feature(5, 1.0), feature(7, 0.5)]]);
    assert!(rr.can_learn(&fb));
    let p = learn(&mut rr, &fb, false);
    let wsum = 3.0f32 * (6.0 * 1.0) + 4.0 * (8.0 * 0.5);
    assert_eq!(p, 1.0 / (1.0 + (-wsum).exp()));
}

#[test]
fn logit_that_is_no_number_gives_one_half_and_teaches_nothing() {
    let mut mi = ModelInstance::new_empty();
    mi.learning_rate = bits(0.1);
    mi.power_t = bits(0.0);
    mi.bit_precision = 6;
    let mut rr = Regressor::new(&mi, &unit);
    rr.weights[1].weight = bits(f32::MAX);
    rr.weights[2].weight = bits(-f32::MAX);
    let before = rr.weights.clone();
    let fb = lr_vec(vec![feature(1, 4.0), feature(2, 4.0)]);
    assert_eq!(learn(&mut rr, &fb, true), 0.5);
    assert_eq!(rr.weights, before);
    let fixed = FixedRegressor::new(rr);
    assert_eq!(f32::from_bits(fixed.predict(&fb, 0, &unit)), 0.5);
}

#[test]
fn logit_beyond_fifty_is_clipped_and_teaches_nothing() {
    let mut mi = ModelInstance::new_empty();
    mi.learning_rate = bits(0.1);
    mi.power_t = bits(0.0);
    mi.bit_precision = 6;
    let mut rr = Regressor::new(&mi, &unit);
    rr.weights[1].weight = bits(30.0);
    let before = rr.weights.clone();
    let fb = lr_vec(vec![feature(1, 2.0)]);
    assert_eq!(learn(&mut rr, &fb, true), 1.0 / (1.0 + (-50.0f32).exp()));
    assert_eq!(rr.weights, before);
    let fb = lr_vec(vec![feature(1, -2.0)]);
    assert_eq!(learn(&mut rr, &fb, true), 1.0 / (1.0 + (50.0f32).exp()));
    assert_eq!(rr.weights, before);
    let fixed = FixedRegressor::new(rr);
    assert_eq!(f32::from_bits(fixed.predict(&fb, 0, &unit)), 1.0 / (1.0 + (50.0f32).exp()));
    // at fifty itself the example teaches
    mi.bit_precision = 6;
    let mut rr = Regressor::new(&mi, &unit);
    rr.weights[1].weight = bits(25.0);
    let before = rr.weights.clone();
    learn(&mut rr, &lr_vec(vec![feature(1, -2.0)]), true);
    assert_ne!(rr.weights, before);
}
