//! The hyperparameters of a model.

use vstd::prelude::*;
use crate::bits::{HALF, ONE, ZERO};

verus! {

/// `0.1`
pub const ONE_TENTH: u32 = 0x3dcc_cccd;

/// `0.25`
pub const ONE_QUARTER: u32 = 0x3e80_0000;

#[derive(Clone, Copy, PartialEq, Eq, Structural, Debug)]
pub enum Optimizer {
    SGD,
    Adagrad,
}

#[derive(Clone, Debug)]
pub struct ModelInstance {
    pub learning_rate: u32,
    pub power_t: u32,
    pub bit_precision: u8,
    pub fastmath: bool,
    pub optimizer: Optimizer,
    pub ffm_k: u32,
    pub ffm_bit_precision: u32,
    pub ffm_separate_vectors: bool,
    /// One entry per field; only the number of fields matters here.
    pub ffm_fields: Vec<Vec<u32>>,
    pub ffm_learning_rate: u32,
    pub ffm_power_t: u32,
    pub ffm_init_acc_gradient: u32,
    pub ffm_init_center: u32,
    pub ffm_init_width: u32,
    pub ffm_init_zero_band: u32,
    pub attention: bool,
    pub attention_learning_rate: u32,
    pub attention_power_t: u32,
    pub attention_init_acc_gradient: u32,
    pub attention_l2: u32,
    pub attention_snap_to_zero: u32,
    /// Examples numbered from here on leave the attention weights as they are.
    pub attention_horizon: u64,
}

impl ModelInstance {
    /// The default hyperparameters, with no field and no embedding.
    pub fn new_empty() -> (mi: ModelInstance)
        ensures
            mi.learning_rate == HALF,
            mi.power_t == HALF,
            mi.bit_precision == 18,
            !mi.fastmath,
            mi.optimizer == Optimizer::SGD,
            mi.ffm_k == 0,
            mi.ffm_bit_precision == 18,
            !mi.ffm_separate_vectors,
            mi.ffm_fields@.len() == 0,
            mi.ffm_learning_rate == HALF,
            mi.ffm_power_t == HALF,
            mi.ffm_init_acc_gradient == ZERO,
            mi.ffm_init_center == ZERO,
            mi.ffm_init_width == ZERO,
            mi.ffm_init_zero_band == ZERO,
            !mi.attention,
            mi.attention_learning_rate == ONE_TENTH,
            mi.attention_power_t == ONE_QUARTER,
            mi.attention_init_acc_gradient == ONE,
            mi.attention_l2 == ZERO,
            mi.attention_snap_to_zero == ZERO,
            mi.attention_horizon == u64::MAX,
    {
        ModelInstance {
            learning_rate: HALF,
            power_t: HALF,
            bit_precision: 18,
            fastmath: false,
            optimizer: Optimizer::SGD,
            ffm_k: 0,
            ffm_bit_precision: 18,
            ffm_separate_vectors: false,
            ffm_fields: Vec::new(),
            ffm_learning_rate: HALF,
            ffm_power_t: HALF,
            ffm_init_acc_gradient: ZERO,
            ffm_init_center: ZERO,
            ffm_init_width: ZERO,
            ffm_init_zero_band: ZERO,
            attention: false,
            attention_learning_rate: ONE_TENTH,
            attention_power_t: ONE_QUARTER,
            attention_init_acc_gradient: ONE,
            attention_l2: ZERO,
            attention_snap_to_zero: ZERO,
            attention_horizon: u64::MAX,
        }
    }
}

} // verus!
