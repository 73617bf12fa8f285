//! A granular texture engine: it records incoming audio into a circular
//! history buffer and stochastically replays short, Tukey-windowed snippets
//! ("grains") of that history, blended with the dry signal.
//!
//! All audio samples are fixed-point values with 16 fractional bits
//! (`Q_ONE` represents 1.0); host-facing float conversion lives outside
//! this crate.
pub mod engine;
pub mod fixed;
pub mod grain;
pub mod params;
mod rng;
pub mod window;

pub use engine::Granular;
pub use engine::MAX_GRAINS;
pub use engine::MAX_SAMPLE_RATE;
pub use engine::RING_SECONDS;
pub use engine::TUKEY_ALPHA_Q;
pub use fixed::Q_ONE;
pub use fixed::SAMPLE_LIMIT;
pub use grain::Grain;
pub use params::GranularParams;
pub use params::SmoothedParam;
pub use window::apply_tukey;
pub use window::tukey_weight_at;
