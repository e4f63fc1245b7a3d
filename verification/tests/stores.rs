use fwumious_wabbit::arith::{Operation, Request};
use fwumious_wabbit::block::{
    chain_accepts, read_chain_weights, read_chain_weights_from, write_chain_weights, Block,
};
use fwumious_wabbit::block_loss_functions::BlockSigmoid;
use fwumious_wabbit::block_affm::{mask_of, AttentionLine, BlockAFFM, ConfigError};
use fwumious_wabbit::block_helpers::{
    pair_accepts, read_weights_from_buf, read_weights_only_from_buf2, write_weights_to_buf, LoadError,
    WeightAndOptimizerData,
};
use fwumious_wabbit::feature_buffer::{FeatureBuffer, HashAndValueAndSeq};
use fwumious_wabbit::model_instance::ModelInstance;
use fwumious_wabbit::optimizer::{
    OptimizerAdagradFlex, OptimizerAdagradLUT, OptimizerSGD, OptimizerTrait,
};
use fwumious_wabbit::regressor::{span_of, Regressor, Weight};

/// The arithmetic unit of the machine.
fn unit(q: Request) -> u32 {
    let a = f32::from_bits(q.a);
    let b = f32::from_bits(q.b);
    let r = match q.op {
        Operation::Add => a + b,
        Operation::Sub => a - b,
        Operation::Mul => a * b,
        Operation::Div => a / b,
        Operation::Exp => a.exp(),
        Operation::Pow => a.powf(b),
        Operation::Sqrt => a.sqrt(),
        Operation::FromCount => q.a as f32,
    };
    r.to_bits()
}

fn bits(x: f32) -> u32 {
    x.to_bits()
}

fn small_model(ffm_k: u32, fields: usize, ffm_bit_precision: u32) -> ModelInstance {
    let mut mi = ModelInstance::new_empty();
    mi.ffm_k = ffm_k;
    mi.ffm_bit_precision = ffm_bit_precision;
    mi.ffm_fields = vec![vec![]; fields];
    mi.ffm_learning_rate = bits(0.1);
    mi.ffm_power_t = bits(0.0);
    mi
}

fn entry(weight: f32, optimizer_data: f32) -> WeightAndOptimizerData {
    WeightAndOptimizerData { weight: bits(weight), optimizer_data: bits(optimizer_data) }
}

#[test]
fn block_has_the_lengths_of_its_model() {
    let mi = small_model(4, 3, 10);
    let mut block = BlockAFFM::<OptimizerAdagradFlex>::new_without_weights(&mi, &unit).unwrap();
    assert_eq!(block.field_embedding_len, 12);
    assert_eq!(block.ffm_weights_len, 1024 + 12);
    assert_eq!(block.attention_weights_len, 9);
    assert_eq!(block.ffm_hash_mask, 1023);
    assert_eq!(block.weights.len(), 0);
    assert!(!block.is_ready());
    block.allocate_and_init_weights(&mi, &unit);
    assert!(block.is_ready());
    assert_eq!(block.weights.len(), 1036);
    assert_eq!(block.attention_weights.len(), 9);
    assert_eq!(block.get_serialized_len(), 1045);
    for z in 0..9 {
        assert_eq!(block.attention_weights[z], entry(1.0, 1.0));
    }
}

#[test]
fn block_without_embeddings_is_hollow() {
    let mi = small_model(0, 3, 10);
    let mut block = BlockAFFM::<OptimizerAdagradFlex>::new_without_weights(&mi, &unit).unwrap();
    assert_eq!(block.ffm_weights_len, 0);
    assert_eq!(block.attention_weights_len, 0);
    block.allocate_and_init_weights(&mi, &unit);
    assert_eq!(block.weights.len(), 0);
    assert_eq!(block.get_serialized_len(), 0);
    assert!(!block.is_ready());
}

#[test]
fn scratch_need_decides_construction() {
    // 4 * 45 * 45 = 8100 fits, 4 * 46 * 46 = 8464 does not
    let mi = small_model(4, 45, 4);
    assert!(BlockAFFM::<OptimizerSGD>::new_without_weights(&mi, &unit).is_ok());
    let mi = small_model(4, 46, 4);
    match BlockAFFM::<OptimizerSGD>::new_without_weights(&mi, &unit) {
        Err(e) => assert_eq!(e, ConfigError::ScratchTooSmall { fields: 46, ffm_k: 4 }),
        Ok(_) => panic!("a block too large for its scratch was built"),
    }
    // 8196 * 1 * 1 fits exactly, 8197 does not
    assert!(BlockAFFM::<OptimizerSGD>::new_without_weights(&small_model(8196, 1, 4), &unit).is_ok());
    assert!(BlockAFFM::<OptimizerSGD>::new_without_weights(&small_model(8197, 1, 4), &unit).is_err());
    assert!(BlockAFFM::<OptimizerSGD>::new_without_weights(&small_model(u32::MAX, 2, 4), &unit)
        .is_err());
}

#[test]
fn address_space_decides_construction() {
    assert!(BlockAFFM::<OptimizerSGD>::new_without_weights(&small_model(1, 1, 12), &unit).is_ok());
    match BlockAFFM::<OptimizerSGD>::new_without_weights(&small_model(1, 1, 32), &unit) {
        Err(e) => assert_eq!(e, ConfigError::AddressSpaceTooLarge { ffm_bit_precision: 32 }),
        Ok(_) => panic!("a block beyond its address space was built"),
    }
    // without embeddings the address space is not looked at
    assert!(BlockAFFM::<OptimizerSGD>::new_without_weights(&small_model(0, 1, 32), &unit).is_ok());
}

#[test]
fn masks_and_spans() {
    assert_eq!(mask_of(0), 0);
    assert_eq!(mask_of(1), 1);
    assert_eq!(mask_of(18), 262143);
    assert_eq!(mask_of(31), 0x7fff_ffff);
    assert_eq!(span_of(0), 1);
    assert_eq!(span_of(1), 1);
    assert_eq!(span_of(2), 2);
    assert_eq!(span_of(3), 4);
    assert_eq!(span_of(5), 8);
    assert_eq!(span_of(8), 8);
    assert_eq!(span_of(0x8000_0000), 0x8000_0000);
}

#[test]
fn narrow_initial_weights_are_drawn_by_merand48() {
    let mi = small_model(4, 2, 6);
    let mut block = BlockAFFM::<OptimizerAdagradLUT>::new_without_weights(&mi, &unit).unwrap();
    block.allocate_and_init_weights(&mi, &unit);
    let len = block.ffm_weights_len as usize;
    assert_eq!(len, 64 + 8);
    let ffm_one_over_k_root = 1.0 / (4 as f32).sqrt() / 50.0;
    for i in 0..len {
        let expected = (1.0 * merand48::merand48((len + i) as u64) - 0.5) * ffm_one_over_k_root;
        assert_eq!(f32::from_bits(block.weights[i].weight), expected);
        assert_eq!(block.weights[i].optimizer_data, bits(0.0));
        // a seed is not its own draw
        assert_ne!(block.weights[i].weight as u64, (len + i) as u64);
    }
}

#[test]
fn banded_initial_weights_are_drawn_by_merand48() {
    let mut mi = small_model(2, 2, 5);
    mi.ffm_init_width = bits(0.4);
    mi.ffm_init_zero_band = bits(0.25);
    mi.ffm_init_center = bits(0.125);
    mi.ffm_init_acc_gradient = bits(0.75);
    let mut block = BlockAFFM::<OptimizerAdagradFlex>::new_without_weights(&mi, &unit).unwrap();
    block.allocate_and_init_weights(&mi, &unit);
    let zero_half_band_width = 0.4f32 * 0.25 * 0.5;
    let band_width = 0.4f32 * (1.0 - 0.25);
    let mut above = 0;
    let mut below = 0;
    for i in 0..block.ffm_weights_len as usize {
        let mut w = merand48::merand48(i as u64) * band_width - band_width * 0.5;
        if w > 0.0 {
            w += zero_half_band_width;
            above += 1;
        } else {
            w -= zero_half_band_width;
            below += 1;
        }
        w += 0.125;
        assert_eq!(f32::from_bits(block.weights[i].weight), w);
        assert_eq!(block.weights[i].optimizer_data, bits(0.75));
    }
    assert!(above > 0 && below > 0);
}

#[test]
fn written_stores_read_back() {
    let weights = vec![entry(1.0, 2.0), entry(-0.5, 0.0), entry(f32::MAX, 1.0e-40)];
    let mut bytes = vec![7u8, 7, 7];
    write_weights_to_buf(&weights, &mut bytes);
    assert_eq!(bytes.len(), 3 + 24);
    assert_eq!(&bytes[3..7], &1.0f32.to_le_bytes());
    assert_eq!(&bytes[7..11], &2.0f32.to_le_bytes());
    let mut back = vec![entry(0.0, 0.0); 3];
    assert_eq!(read_weights_from_buf(&mut back, &bytes, 3), Ok(27));
    assert_eq!(back, weights);
}

#[test]
fn short_buffers_are_refused() {
    let weights = vec![entry(1.0, 2.0), entry(3.0, 4.0)];
    let mut bytes = Vec::new();
    write_weights_to_buf(&weights, &mut bytes);
    let mut back = vec![entry(9.0, 9.0); 2];
    assert_eq!(
        read_weights_from_buf(&mut back, &bytes[..15], 0),
        Err(LoadError::Truncated { weights: 2, found: 15 })
    );
    assert_eq!(back, vec![entry(9.0, 9.0); 2]);
    assert_eq!(
        read_weights_from_buf(&mut back, &bytes, 1),
        Err(LoadError::Truncated { weights: 2, found: 15 })
    );
    assert_eq!(
        read_weights_from_buf(&mut back, &bytes, 17),
        Err(LoadError::Truncated { weights: 2, found: 0 })
    );
    assert_eq!(read_weights_from_buf(&mut back, &bytes, 0), Ok(16));
    let mut none: Vec<WeightAndOptimizerData> = Vec::new();
    assert_eq!(read_weights_from_buf(&mut none, &bytes, 16), Ok(16));
}

#[test]
fn weights_alone_are_read_into_a_frozen_store() {
    let weights = vec![entry(1.0, 2.0), entry(3.0, 4.0)];
    let mut bytes = Vec::new();
    write_weights_to_buf(&weights, &mut bytes);
    let mut frozen = vec![entry(0.0, 0.0); 2];
    assert_eq!(read_weights_only_from_buf2(2, &mut frozen, &bytes, 0), Ok(16));
    assert_eq!(frozen, vec![entry(1.0, 0.0), entry(3.0, 0.0)]);
    assert_eq!(
        read_weights_only_from_buf2(3, &mut frozen, &bytes, 0),
        Err(LoadError::ShapeMismatch { expected: 3, found: 2 })
    );
    assert_eq!(
        read_weights_only_from_buf2(2, &mut frozen, &bytes, 8),
        Err(LoadError::Truncated { weights: 2, found: 8 })
    );
}

#[test]
fn block_stores_travel_through_bytes() {
    let mi = small_model(2, 2, 4);
    let mut block = BlockAFFM::<OptimizerAdagradFlex>::new_without_weights(&mi, &unit).unwrap();
    block.allocate_and_init_weights(&mi, &unit);
    block.testing_set_weights(0, 0, 5, &[bits(0.625)]);
    assert_eq!(block.weights[5], entry(0.625, 0.0));
    block.attention_weights[2] = entry(0.75, 3.0);
    let mut bytes = Vec::new();
    block.write_weights_to_buf(&mut bytes);
    assert_eq!(bytes.len(), block.get_serialized_len() * 8);

    let mut other = BlockAFFM::<OptimizerAdagradFlex>::new_without_weights(&mi, &unit).unwrap();
    other.allocate_and_init_weights(&mi, &unit);
    for w in other.weights.iter_mut() {
        *w = entry(0.0, 0.0);
    }
    assert_eq!(other.read_weights_from_buf(&bytes, 0), Ok(bytes.len()));
    assert_eq!(other.weights, block.weights);
    assert_eq!(other.attention_weights, block.attention_weights);
    assert!(other.read_weights_from_buf(&bytes[..bytes.len() - 1], 0).is_err());

    let mut forward = block.new_forward_only_without_weights();
    assert_eq!(forward.ffm_k, 2);
    assert_eq!(forward.ffm_weights_len, block.ffm_weights_len);
    assert_eq!(forward.weights.len(), 0);
    assert_eq!(
        block.read_weights_from_buf_into_forward_only(&bytes, 0, &mut forward),
        Err(LoadError::ShapeMismatch { expected: 20, found: 0 })
    );
    forward.allocate_and_init_weights(&mi, &unit);
    assert_eq!(
        block.read_weights_from_buf_into_forward_only(&bytes, 0, &mut forward),
        Ok(bytes.len())
    );
    assert_eq!(forward.weights[5], entry(0.625, 0.0));
    assert_eq!(forward.attention_weights[2], entry(0.75, 0.0));

    // the frozen twin scores as the block does
    let fb = FeatureBuffer {
        label: bits(0.0),
        example_importance: bits(1.0),
        example_number: 0,
        lr_buffer: Vec::new(),
        ffm_buffer: vec![
            HashAndValueAndSeq { hash: 3, value: bits(1.5), contra_field_index: 0 },
            HashAndValueAndSeq { hash: 9, value: bits(-2.0), contra_field_index: 2 },
        ],
        ffm_fields_count: 2,
        ffm_buffers: Vec::new(),
    };
    assert!(block.accepts(&fb) && forward.accepts(&fb));
    assert_eq!(block.interact(&fb, &unit), forward.interact(&fb, &unit));
}

#[test]
fn attention_report_goes_line_by_line() {
    let mi = small_model(1, 2, 4);
    let mut block = BlockAFFM::<OptimizerAdagradFlex>::new_without_weights(&mi, &unit).unwrap();
    block.allocate_and_init_weights(&mi, &unit);
    block.attention_weights[1] = entry(0.5, 2.0);
    let lines = block.debug_output(&mi, 0);
    assert_eq!(lines.len(), 4);
    assert_eq!(lines[0], AttentionLine { f1: 0, f2: 0, weight: bits(1.0), optimizer_data: bits(1.0) });
    assert_eq!(lines[1], AttentionLine { f1: 0, f2: 1, weight: bits(0.5), optimizer_data: bits(2.0) });
    assert_eq!(lines[2], AttentionLine { f1: 1, f2: 0, weight: bits(1.0), optimizer_data: bits(1.0) });
    assert_eq!(lines[3], AttentionLine { f1: 1, f2: 1, weight: bits(1.0), optimizer_data: bits(1.0) });
}

#[test]
fn examples_are_checked_before_they_are_scored() {
    let mi = small_model(2, 3, 4);
    let mut block = BlockAFFM::<OptimizerAdagradFlex>::new_without_weights(&mi, &unit).unwrap();
    block.allocate_and_init_weights(&mi, &unit);
    let example = |cfis: Vec<u32>, fields: u32| FeatureBuffer {
        label: bits(0.0),
        example_importance: bits(1.0),
        example_number: 0,
        lr_buffer: Vec::new(),
        ffm_buffer: cfis
            .into_iter()
            .map(|c| HashAndValueAndSeq { hash: 1, value: bits(1.0), contra_field_index: c })
            .collect(),
        ffm_fields_count: fields,
        ffm_buffers: Vec::new(),
    };
    assert!(block.accepts(&example(vec![], 3)));
    assert!(block.accepts(&example(vec![0, 0, 2, 4, 4], 3)));
    assert!(!block.accepts(&example(vec![0, 2], 2)));
    assert!(!block.accepts(&example(vec![2, 0], 3)));
    assert!(!block.accepts(&example(vec![1], 3)));
    assert!(!block.accepts(&example(vec![6], 3)));
}

#[test]
fn regressor_store_follows_the_model() {
    let mut mi = ModelInstance::new_empty();
    mi.bit_precision = 4;
    mi.ffm_k = 3;
    mi.ffm_bit_precision = 5;
    mi.ffm_fields = vec![vec![], vec![]];
    mi.ffm_separate_vectors = true;
    mi.learning_rate = bits(0.25);
    mi.power_t = bits(0.5);
    assert!(Regressor::can_build(&mi));
    let rg = Regressor::new(&mi, &unit);
    assert_eq!(rg.hash_mask, 15);
    assert_eq!(rg.ffm_weights_offset, 16);
    assert_eq!(rg.ffm_k, 3);
    assert_eq!(rg.ffm_hashmask, 31 ^ 3);
    assert_eq!(rg.ffm_iw_weights_offset, 48);
    assert_eq!(rg.ffm_separate_vectors_k, 3);
    assert_eq!(rg.weights.len(), 16 + 32 + 3 * 4);
    assert_eq!(rg.minus_power_t, bits(-0.5));
    assert_eq!(f32::from_bits(rg.ffm_one_over_k_root), 1.0 / (3 as f32).sqrt() / 10.0);
    for i in 0..rg.weights.len() {
        let acc = if i >= 16 && i < 48 { 1.0 } else { 0.0 };
        assert_eq!(rg.weights[i], Weight { weight: bits(0.0), acc_grad: bits(acc) });
    }
    assert!(rg.fastmath_lr_lut.iter().all(|x| *x == 0));

    mi.bit_precision = 32;
    assert!(!Regressor::can_build(&mi));
    mi.bit_precision = 4;
    mi.ffm_k = 64;
    assert!(!Regressor::can_build(&mi));
    mi.ffm_k = 32;
    assert!(Regressor::can_build(&mi));
    mi.bit_precision = 31;
    mi.ffm_bit_precision = 31;
    assert!(!Regressor::can_build(&mi));
}

#[test]
fn rate_table_averages_the_edges_of_each_bucket() {
    let mut mi = ModelInstance::new_empty();
    mi.bit_precision = 4;
    mi.learning_rate = bits(0.1);
    mi.power_t = bits(0.5);
    mi.fastmath = true;
    let rg = Regressor::new(&mi, &unit);
    for x in [0usize, 1, 5, 1015, 1016, 1017, 2046, 2047] {
        let float_x = f32::from_bits((x as u32) << 20);
        let float_x_plus_one = f32::from_bits(((x + 1) as u32) << 20);
        let val = 0.1f32 * (float_x.powf(-0.5) + float_x_plus_one.powf(-0.5)) / 2.0;
        assert_eq!(rg.fastmath_lr_lut[x], val.to_bits(), "bucket {}", x);
    }
    // 1.0 lies at the lower edge of bucket 1016
    let update = rg.fastmath_calculate_update(bits(2.0), bits(1.0), &unit);
    assert_eq!(update, (2.0 * f32::from_bits(rg.fastmath_lr_lut[1016])).to_bits());
    let update = rg.fastmath_calculate_update(bits(2.0), bits(-1.0), &unit);
    assert_eq!(update, (2.0 * f32::from_bits(rg.fastmath_lr_lut[1016])).to_bits());
}

#[test]
fn optimizers_step_as_their_rules_say() {
    let mut flex = OptimizerAdagradFlex::new();
    flex.init(bits(0.1), bits(0.5), bits(1.0), &unit);
    assert_eq!(flex.initial_data(), bits(1.0));
    let mut data = flex.initial_data();
    let scale = flex.calculate_update(bits(3.0), &mut data, &unit);
    assert_eq!(data, bits(10.0));
    assert_eq!(scale, (0.1f32 * 10.0f32.powf(-0.5)).to_bits());

    let mut lut = OptimizerAdagradLUT::new();
    lut.init(bits(0.1), bits(0.5), bits(1.0), &unit);
    assert_eq!(lut.initial_data(), bits(0.0));
    let mut data = lut.initial_data();
    let scale = lut.calculate_update(bits(3.0), &mut data, &unit);
    assert_eq!(data, bits(9.0));
    let key = (9.0f32.to_bits() >> 20) as usize;
    let low = f32::from_bits((key as u32) << 20) + 1.0;
    let high = f32::from_bits(((key + 1) as u32) << 20) + 1.0;
    assert_eq!(scale, (0.1f32 * (low.powf(-0.5) + high.powf(-0.5)) / 2.0).to_bits());
    // where the average is not finite the table holds the learning rate
    let mut bare = OptimizerAdagradLUT::new();
    bare.init(bits(0.1), bits(0.5), bits(0.0), &unit);
    assert_eq!(bare.fastmath_lr_lut[0], bits(0.1));
    assert_eq!(bare.fastmath_lr_lut[2047], bits(0.1));

    let mut sgd = OptimizerSGD::new();
    sgd.init(bits(0.1), bits(0.5), bits(1.0), &unit);
    let mut data = sgd.initial_data();
    assert_eq!(data, bits(0.0));
    let scale = sgd.calculate_update(bits(3.0), &mut data, &unit);
    assert_eq!(scale, bits(0.0));
    assert_eq!(data, bits(9.0));
}

#[test]
fn chain_needs_its_link_at_the_end() {
    let mi = small_model(1, 2, 4);
    let fb = FeatureBuffer {
        label: bits(0.0),
        example_importance: bits(1.0),
        example_number: 0,
        lr_buffer: Vec::new(),
        ffm_buffer: Vec::new(),
        ffm_fields_count: 2,
        ffm_buffers: Vec::new(),
    };
    let affm = || {
        let mut b = BlockAFFM::<OptimizerSGD>::new_without_weights(&mi, &unit).unwrap();
        b.allocate_and_init_weights(&mi, &unit);
        Block::AFFM(b)
    };
    let link = || Block::<OptimizerSGD>::Sigmoid(BlockSigmoid::new_without_weights());
    assert!(!chain_accepts::<OptimizerSGD>(&[], &fb));
    assert!(chain_accepts(&[link()], &fb));
    assert!(chain_accepts(&[affm(), link()], &fb));
    assert!(chain_accepts(&[affm(), affm(), link()], &fb));
    assert!(!chain_accepts(&[affm()], &fb));
    assert!(!chain_accepts(&[link(), affm()], &fb));
    assert!(!chain_accepts(&[link(), link()], &fb));
    let unready = Block::AFFM(BlockAFFM::<OptimizerSGD>::new_without_weights(&mi, &unit).unwrap());
    assert!(!pair_accepts(&unready, &link(), &fb));
    assert!(!chain_accepts(&[unready, link()], &fb));
    assert!(pair_accepts(&affm(), &link(), &fb));
    assert!(!pair_accepts(&affm(), &affm(), &fb));
    assert!(!pair_accepts(&link(), &link(), &fb));
    assert!(!pair_accepts(&link(), &affm(), &fb));
}

#[test]
fn chain_stores_travel_through_bytes() {
    let mi = small_model(2, 2, 3);
    let other = small_model(1, 3, 2);
    let block = |mi: &ModelInstance, weight: f32| {
        let mut b = BlockAFFM::<OptimizerAdagradFlex>::new_without_weights(mi, &unit).unwrap();
        b.allocate_and_init_weights(mi, &unit);
        for w in b.weights.iter_mut() {
            *w = entry(weight, weight + 1.0);
        }
        Block::AFFM(b)
    };
    let link = || Block::<OptimizerAdagradFlex>::Sigmoid(BlockSigmoid::new_without_weights());
    let chain = vec![block(&mi, 0.5), block(&other, 0.25), link()];
    let mut bytes = Vec::new();
    write_chain_weights(&chain, &mut bytes);
    // (8 + 4) + 4 weights, then (4 + 3) + 9 weights
    assert_eq!(bytes.len(), (16 + 16) * 8);
    assert_eq!(&bytes[0..4], &0.5f32.to_le_bytes());
    assert_eq!(&bytes[16 * 8..16 * 8 + 4], &0.25f32.to_le_bytes());

    let mut back = vec![block(&mi, 0.0), block(&other, 0.0), link()];
    assert_eq!(read_chain_weights(&mut back, &bytes), Ok(()));
    for (a, b) in back.iter().zip(chain.iter()) {
        match (a, b) {
            (Block::AFFM(a), Block::AFFM(b)) => {
                assert_eq!(a.weights, b.weights);
                assert_eq!(a.attention_weights, b.attention_weights);
            }
            (Block::Sigmoid(_), Block::Sigmoid(_)) => {}
            _ => panic!("the chain changed its blocks"),
        }
    }
    let mut longer = bytes.clone();
    longer.push(0);
    assert_eq!(
        read_chain_weights(&mut back, &longer),
        Err(LoadError::Excess { expected: 256, found: 257 })
    );
    assert_eq!(read_chain_weights_from(&mut back, &longer, 1), Ok(257));
    assert_eq!(
        read_chain_weights(&mut back, &bytes[..255]),
        Err(LoadError::Truncated { weights: 9, found: 71 })
    );
    assert_eq!(
        read_chain_weights(&mut back, &bytes[..100]),
        Err(LoadError::Truncated { weights: 4, found: 4 })
    );
    assert_eq!(
        read_chain_weights(&mut back, &bytes[..50]),
        Err(LoadError::Truncated { weights: 12, found: 50 })
    );
    let mut none: Vec<Block<OptimizerAdagradFlex>> = Vec::new();
    assert_eq!(read_chain_weights(&mut none, &[]), Ok(()));
    assert_eq!(read_chain_weights(&mut none, &[1]), Err(LoadError::Excess { expected: 0, found: 1 }));
}
