use vstd::prelude::*;

pub mod types;
pub mod deposit;
pub mod math;
pub mod pool;
pub mod exchange;
pub mod laws;
pub mod xcm;
pub mod xcmp;
