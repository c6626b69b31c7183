pub mod clock;
pub mod crypto;
pub mod relay;
pub mod rng;
pub mod text;
pub mod topology;
pub mod wire;
pub mod trust;
