use vstd::prelude::*;

pub mod block;
pub mod blockchain;
pub mod codec;
pub mod digest;
pub mod proofofwork;
pub mod transaction;
pub mod utxo;

verus! {

} // verus!
