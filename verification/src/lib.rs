//! Construction, encoding and syndrome decoding of three families of binary
//! block codes — systematic linear, extended Hamming (SEC-DED) and cyclic —
//! together with a randomized experiment harness that exercises them over a
//! simulated noisy channel.

pub mod bits;
pub mod config;
pub mod cyclic;
pub mod experiments;
pub mod formatting;
pub mod hamming;
pub mod linalg;
pub mod params;
pub mod rng;
pub mod systematic;

pub use config::{CodeConfig, SelectedCodeType};
pub use formatting::format_bits;
pub use linalg::dot_product;
pub use params::{compute_hamming_n_from_k, compute_n_from_k};
