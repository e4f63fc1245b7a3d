use fwumious_wabbit::arith::{Operation, Request};
use fwumious_wabbit::block::Block;
use fwumious_wabbit::block_affm::BlockAFFM;
use fwumious_wabbit::block_helpers::{slearn, spredict};
use fwumious_wabbit::block_loss_functions::BlockSigmoid;
use fwumious_wabbit::feature_buffer::{FeatureBuffer, HashAndValueAndSeq};
use fwumious_wabbit::model_instance::{ModelInstance, Optimizer};
use fwumious_wabbit::optimizer::{
    OptimizerAdagradFlex, OptimizerAdagradLUT, OptimizerTrait,
};

/// The arithmetic unit of the machine.
fn unit(q: Request) -> u32 {
    let a = f32::from_bits(q.a);
    let b = f32::from_bits(q.b);
    let r = match q.op {
        Operation::Add => a + b,
        Operation::Sub => a - b,
        Operation::Mul => a * b,
        Operation::Div => a / b,
        Operation::Exp => a.exp(),
        Operation::Pow => a.powf(b),
        Operation::Sqrt => a.sqrt(),
        Operation::FromCount => q.a as f32,
    };
    r.to_bits()
}

fn bits(x: f32) -> u32 {
    x.to_bits()
}

fn assert_epsilon(x: f32, y: f32) {
    assert!(x - y < 0.0000005 && y - x < 0.0000005, "{} is not {}", x, y);
}

fn feature(hash: u32, value: f32, contra_field_index: u32) -> HashAndValueAndSeq {
    HashAndValueAndSeq { hash, value: bits(value), contra_field_index }
}

fn ffm_vec(v: Vec<HashAndValueAndSeq>, ffm_fields_count: u32) -> FeatureBuffer {
    FeatureBuffer {
        label: bits(0.0),
        example_importance: bits(1.0),
        example_number: 0,
        lr_buffer: Vec::new(),
        ffm_buffer: v,
        ffm_fields_count,
        ffm_buffers: Vec::new(),
    }
}

fn ffm_init<T: OptimizerTrait>(block_ffm: &mut Block<T>) {
    match block_ffm {
        Block::AFFM(block_ffm) => {
            for i in 0..block_ffm.weights.len() {
                block_ffm.weights[i].weight = bits(1.0);
                block_ffm.weights[i].optimizer_data = block_ffm.optimizer_ffm.initial_data();
            }
            for i in 0..block_ffm.attention_weights.len() {
                block_ffm.attention_weights[i].weight = bits(1.0);
                block_ffm.attention_weights[i].optimizer_data =
                    block_ffm.optimizer_attention.initial_data();
            }
        }
        Block::Sigmoid(_) => panic!("not an interaction block"),
    }
}

fn new_affm<T: OptimizerTrait>(mi: &ModelInstance) -> Block<T> {
    let mut re = Block::AFFM(BlockAFFM::<T>::new_without_weights(mi, &unit).unwrap());
    re.allocate_and_init_weights(mi, &unit);
    re
}

fn new_sigmoid<T: OptimizerTrait>() -> Block<T> {
    Block::Sigmoid(BlockSigmoid::new_without_weights())
}

fn predict<T: OptimizerTrait>(re: &mut Block<T>, lossf: &mut Block<T>, fb: &FeatureBuffer) -> f32 {
    f32::from_bits(spredict(re, lossf, fb, true, &unit))
}

fn learn<T: OptimizerTrait>(
    re: &mut Block<T>,
    lossf: &mut Block<T>,
    fb: &FeatureBuffer,
    update: bool,
) -> f32 {
    f32::from_bits(slearn(re, lossf, fb, update, &unit))
}

#[test]
fn test_affm_k1() {
    let mut mi = ModelInstance::new_empty();
    mi.learning_rate = bits(0.1);
    mi.ffm_learning_rate = bits(0.1);
    mi.power_t = bits(0.0);
    mi.ffm_power_t = bits(0.0);
    mi.bit_precision = 18;
    mi.ffm_k = 1;
    mi.ffm_bit_precision = 18;
    mi.ffm_fields = vec![vec![], vec![]];
    mi.attention = true;

    // Nothing can be learned from a single field.  An example names the
    // number of fields of its model, here two, of which the second is empty.
    let mut lossf = new_sigmoid::<OptimizerAdagradLUT>();
    let mut re = new_affm::<OptimizerAdagradLUT>(&mi);
    let fb = ffm_vec(vec![feature(1, 1.0, 0)], 2);
    assert_epsilon(predict(&mut re, &mut lossf, &fb), 0.5);
    assert_epsilon(learn(&mut re, &mut lossf, &fb, true), 0.5);

    // With two fields, things start to happen
    let mut lossf = new_sigmoid::<OptimizerAdagradFlex>();
    let mut re = new_affm::<OptimizerAdagradFlex>(&mi);
    ffm_init::<OptimizerAdagradFlex>(&mut re);
    let fb = ffm_vec(vec![feature(1, 1.0, 0), feature(100, 1.0, mi.ffm_k)], 2);
    assert_epsilon(predict(&mut re, &mut lossf, &fb), 0.7310586);
    assert_eq!(learn(&mut re, &mut lossf, &fb, true), 0.7310586);
    assert_epsilon(predict(&mut re, &mut lossf, &fb), 0.69055194);
    assert_eq!(learn(&mut re, &mut lossf, &fb, true), 0.69055194);

    // Two fields, use values
    let mut lossf = new_sigmoid::<OptimizerAdagradLUT>();
    let mut re = new_affm::<OptimizerAdagradLUT>(&mi);
    ffm_init::<OptimizerAdagradLUT>(&mut re);
    let fb = ffm_vec(vec![feature(1, 2.0, 0), feature(100, 2.0, mi.ffm_k * 1)], 2);
    assert_eq!(predict(&mut re, &mut lossf, &fb), 0.98201376);
    assert_eq!(learn(&mut re, &mut lossf, &fb, true), 0.98201376);
    assert_eq!(predict(&mut re, &mut lossf, &fb), 0.76625353);
    assert_eq!(learn(&mut re, &mut lossf, &fb, true), 0.76625353);
}

#[test]
fn test_affm_k4() {
    let mut mi = ModelInstance::new_empty();
    mi.learning_rate = bits(0.1);
    mi.ffm_learning_rate = bits(0.1);
    mi.power_t = bits(0.0);
    mi.ffm_power_t = bits(0.0);
    mi.ffm_k = 4;
    mi.ffm_bit_precision = 18;
    mi.ffm_fields = vec![vec![], vec![]];

    // Nothing can be learned from a single field.  An example names the
    // number of fields of its model, here two, of which the second is empty:
    // with any other number the attention store would be read out of bounds.
    let mut lossf = new_sigmoid::<OptimizerAdagradLUT>();
    let mut re = new_affm::<OptimizerAdagradLUT>(&mi);
    let fb = ffm_vec(vec![feature(1, 1.0, 0)], 2);
    assert_eq!(predict(&mut re, &mut lossf, &fb), 0.5);
    assert_eq!(learn(&mut re, &mut lossf, &fb, true), 0.5);
    assert_eq!(predict(&mut re, &mut lossf, &fb), 0.5);
    assert_eq!(learn(&mut re, &mut lossf, &fb, true), 0.5);

    // With two fields, things start to happen
    let mut lossf = new_sigmoid::<OptimizerAdagradFlex>();
    let mut re = new_affm::<OptimizerAdagradFlex>(&mi);
    ffm_init::<OptimizerAdagradFlex>(&mut re);
    let fb = ffm_vec(vec![feature(1, 1.0, 0), feature(100, 1.0, mi.ffm_k * 1)], 2);
    assert_eq!(predict(&mut re, &mut lossf, &fb), 0.98201376);
    assert_eq!(learn(&mut re, &mut lossf, &fb, true), 0.98201376);
    assert_eq!(predict(&mut re, &mut lossf, &fb), 0.9320294);
    assert_eq!(learn(&mut re, &mut lossf, &fb, true), 0.9320294);

    // Two fields, use values
    let mut lossf = new_sigmoid::<OptimizerAdagradLUT>();
    let mut re = new_affm::<OptimizerAdagradLUT>(&mi);
    ffm_init::<OptimizerAdagradLUT>(&mut re);
    let fb = ffm_vec(vec![feature(1, 2.0, 0), feature(100, 2.0, mi.ffm_k * 1)], 2);
    assert_eq!(predict(&mut re, &mut lossf, &fb), 0.9999999);
    assert_eq!(learn(&mut re, &mut lossf, &fb, true), 0.9999999);
    assert_eq!(predict(&mut re, &mut lossf, &fb), 0.9689196);
    assert_eq!(learn(&mut re, &mut lossf, &fb, true), 0.9689196);
}

#[test]
fn test_affm_multivalue() {
    let mut mi = ModelInstance::new_empty();
    mi.learning_rate = bits(0.1);
    mi.power_t = bits(0.0);
    mi.ffm_k = 1;
    mi.ffm_bit_precision = 18;
    mi.ffm_power_t = bits(0.0);
    mi.ffm_learning_rate = bits(0.1);
    mi.ffm_fields = vec![vec![], vec![]];
    mi.optimizer = Optimizer::Adagrad;
    mi.fastmath = false;

    let mut lossf = new_sigmoid::<OptimizerAdagradLUT>();
    let mut re = new_affm::<OptimizerAdagradLUT>(&mi);
    ffm_init::<OptimizerAdagradLUT>(&mut re);
    let fbuf = ffm_vec(
        vec![feature(1, 1.0, 0), feature(3 * 1000, 1.0, 0), feature(100, 2.0, mi.ffm_k * 1)],
        2,
    );
    assert_epsilon(predict(&mut re, &mut lossf, &fbuf), 0.9933072);
    assert_eq!(learn(&mut re, &mut lossf, &fbuf, true), 0.9933072);
    assert_epsilon(learn(&mut re, &mut lossf, &fbuf, false), 0.90496447);
    assert_epsilon(predict(&mut re, &mut lossf, &fbuf), 0.90496447);
}

#[test]
fn test_affm_multivalue_k4_nonzero_powert() {
    let mut mi = ModelInstance::new_empty();
    mi.ffm_k = 4;
    mi.ffm_bit_precision = 18;
    mi.ffm_fields = vec![vec![], vec![]];
    mi.optimizer = Optimizer::Adagrad;
    mi.fastmath = false;

    let mut lossf = new_sigmoid::<OptimizerAdagradLUT>();
    let mut re = new_affm::<OptimizerAdagradLUT>(&mi);
    ffm_init::<OptimizerAdagradLUT>(&mut re);
    let fbuf = ffm_vec(
        vec![feature(1, 1.0, 0), feature(3 * 1000, 1.0, 0), feature(100, 2.0, mi.ffm_k * 1)],
        2,
    );
    assert_eq!(predict(&mut re, &mut lossf, &fbuf), 1.0);
    assert_eq!(learn(&mut re, &mut lossf, &fbuf, true), 1.0);
    assert_eq!(predict(&mut re, &mut lossf, &fbuf), 0.9654269);
    assert_eq!(learn(&mut re, &mut lossf, &fbuf, false), 0.9654269);
    assert_eq!(learn(&mut re, &mut lossf, &fbuf, false), 0.9654269);
}

#[test]
fn test_affm_missing_field() {
    // Three fields, of which only the middle one has features
    let mut mi = ModelInstance::new_empty();
    mi.learning_rate = bits(0.1);
    mi.ffm_learning_rate = bits(0.1);
    mi.power_t = bits(0.0);
    mi.ffm_power_t = bits(0.0);
    mi.bit_precision = 18;
    mi.ffm_k = 1;
    mi.ffm_bit_precision = 18;
    mi.ffm_fields = vec![vec![], vec![], vec![]];

    let mut lossf = new_sigmoid::<OptimizerAdagradFlex>();
    let mut re = new_affm::<OptimizerAdagradFlex>(&mi);
    ffm_init::<OptimizerAdagradFlex>(&mut re);
    let fb = ffm_vec(
        vec![feature(1, 1.0, 0), feature(5, 1.0, mi.ffm_k * 1), feature(100, 1.0, mi.ffm_k * 2)],
        3,
    );
    assert_epsilon(predict(&mut re, &mut lossf, &fb), 0.95257413);
    assert_eq!(learn(&mut re, &mut lossf, &fb, false), 0.95257413);

    // here we intentionally have just the middle field
    let fb = ffm_vec(vec![feature(5, 1.0, mi.ffm_k * 1)], 3);
    assert_eq!(predict(&mut re, &mut lossf, &fb), 0.5);
    assert_eq!(learn(&mut re, &mut lossf, &fb, true), 0.5);
}
