//! xxHash: the 32-bit and 64-bit non-cryptographic hash functions, as one-shot
//! functions over a byte slice and, for the 64-bit hash, as a streaming
//! accumulator whose result does not depend on how the input was cut into chunks.

pub mod const_buffer;
pub mod xxhash32;
pub mod xxhash64;

pub use xxhash32::xx_hash32;
pub use xxhash32::xx_hash32_seed;
pub use xxhash64::xx_hash64;
pub use xxhash64::xx_hash64_seed;
pub use xxhash64::Xx64;
