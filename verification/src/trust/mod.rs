pub mod nullifier;
pub mod tee;
pub mod zk;
