//! Types for low-level work with the engine: custom input methods, and the
//! composition state and DFA as they are.
pub use crate::dfa::{Dfa, State};
pub use crate::input_method::{EffectType, Mark, Rule, Tone};
pub use crate::input_method_def::{get_input_method_entries, get_input_method_names, lookup_key};
pub use crate::output_options as OutputOptions;
pub use crate::transformation::{Transformation, TransformationStack, MAX_ACTIVE_TRANS};
