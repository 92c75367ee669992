//! The core of a blockchain query node: the supervisor of its pool of
//! external compute workers, and the Pedersen hash primitive of its chain,
//! both with verified contracts.

use vstd::prelude::*;

mod curve;
mod field;
mod pool;

verus! {

pub use curve::{
    pedersen_hash,
    pedersen_p0,
    pedersen_p1,
    pedersen_p2,
    pedersen_p3,
    pedersen_p4,
    CurvePoint,
};
pub use field::Fp;
pub use pool::{
    bootstrap,
    Action,
    CommandQueue,
    PoolEvent,
    PoolState,
    StartupError,
    StatusEvent,
    COOLDOWN,
};

} // verus!
