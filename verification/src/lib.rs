pub mod apo_ids;
pub mod apo_ipc;
pub mod autoeq_db;
pub mod bonjour;
pub mod chain_presets;
pub mod ddc_library;
pub mod dsp;
pub mod encoding;
pub mod error;
pub mod float_bits;
pub mod graphic_eq_import;
pub mod headphones;
pub mod license;
pub mod link;
pub mod media;
pub mod media_store;
pub mod overlap;
pub mod platform;
pub mod presets;
pub mod radio;
pub mod remote;
pub mod script;
pub mod separation;
pub mod stems;
pub mod store;
pub mod text;
pub mod tv;
pub mod types;
pub mod vdc_import;
pub mod video;
pub mod wide;
