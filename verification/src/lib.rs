//! Online logistic models with field-aware factorisation terms and a learned
//! weight per field pair.
//!
//! Every real number in this crate is an IEEE-754 single-precision value held
//! as its bit pattern in a `u32`.  Comparisons, clamping and table indexing
//! work on the bit patterns directly; rounding arithmetic is requested from an
//! arithmetic unit supplied by the caller (see [`arith`]).

pub mod arith;
pub mod bits;
pub mod block;
pub mod block_affm;
pub mod block_helpers;
pub mod block_loss_functions;
pub mod feature_buffer;
pub mod fixed_regressor;
pub mod interaction;
pub mod laws;
pub mod model_instance;
pub mod optimizer;
pub mod random;
pub mod regressor;
pub mod regressor_learn;
pub mod shared;
pub mod training;
pub mod update;
pub mod value;
