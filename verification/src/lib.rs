//! Cryptographic core of a lattice-based homomorphic encryption scheme:
//! torus words, negacyclic polynomials, an AES-128 counter-mode byte stream,
//! and GLWE / GGSW secret-key encryption.

pub mod numeric;
pub mod tensor;
pub mod negacyclic;
pub mod polynomial;
pub mod csprng;
pub mod random;
pub mod dimensions;
pub mod encoding;
pub mod glwe;
pub mod ggsw;
pub mod secret;
