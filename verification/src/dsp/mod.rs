//! The effects: filters, the bass boost, the widening and surround stages, rooms, the convolver, the
//! compander, saturation and the limiter. Samples are held as bits of single precision numbers, and
//! the arithmetic on them is handed in.

pub mod arith;
pub mod band;
pub mod bands;
pub mod bass;
pub mod biquad;
pub mod chain;
pub mod compander;
pub mod convolver;
pub mod cutting;
pub mod delay;
pub mod design;
pub mod equalizer;
pub mod following;
pub mod impulse;
pub mod levels;
pub mod limiter;
pub mod multiband;
pub mod numbers;
pub mod oversample;
pub mod pieces;
pub mod rack;
pub mod room;
pub mod rooms;
pub mod saturation;
pub mod shapes;
pub mod sides;
pub mod spatial;
pub mod spatializer;
pub mod stages;
pub mod surround;
pub mod tone;
pub mod tuning;

pub use compander::{empty_compander_meter, CompanderMeter};
