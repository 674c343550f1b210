//! Vietnamese input method engine: keystrokes in, composed Vietnamese text out.
//!
//! Supports Telex, VNI, VIQR and related input methods. An [`Engine`] takes
//! keystrokes one at a time ([`Engine::process_key`]), keeps the syllable being
//! typed as a composition of transformations, and renders it as Vietnamese
//! text ([`Engine::output`], [`Engine::get_processed_str`]).
use vstd::prelude::*;

pub mod advanced;
pub mod bamboo_util;
pub mod config;
pub mod dfa;
pub mod engine;
pub mod flattener;
pub mod input_method;
pub mod input_method_def;
pub mod mode;
pub mod output_options;
pub mod spelling;
pub mod text;
pub mod transformation;
pub mod utils;

pub use config::Config;
pub use engine::Engine;
pub use input_method::{parse_input_method, parse_rules, parse_toneless_rules, EffectType, InputMethod, Mark, Tone};
pub use mode::Mode;
pub use output_options as OutputOptions;
pub use transformation::{Transformation, TransformationStack};

verus! {
} // verus!
