//! Compaction of batches of resource records into a self-contained
//! artifact, and the reconstruction of the records from it.
//!
//! Records are grouped by a tag derived from their type, their keys are
//! abbreviated, their repeated texts are interned into dictionaries of
//! small codes, and each group is stored column by column. Three compactors
//! trade size for fidelity: [`DataCompactor`] rewrites values in place,
//! [`EfficientCompactor`] gives every key and value back, and
//! [`TrulyEfficientCompactor`] shortens keys by rule. Every artifact names
//! its [`FidelityMode`].
//!
//! Beside them stand the rules of the checks that are made before models
//! are evaluated, and the reading of what the models answered.

pub mod classify;
pub mod columnar;
pub mod dictionary;
pub mod efficient_compactor;
pub mod efficient_format;
pub mod encode;
pub mod error;
pub mod evaluation;
pub mod fidelity;
pub mod fields;
pub mod json;
pub mod patterns;
pub mod performance;
pub mod round_trip;
pub mod stats;
pub mod structural;
pub mod text;
pub mod truly_efficient_compactor;
pub mod truly_format;
pub mod validation;
pub mod value;
pub mod written;

pub use columnar::FieldType;
pub use efficient_compactor::{EfficientCompactedData, EfficientCompactor};
pub use structural::DataCompactor;
pub use truly_efficient_compactor::TrulyEfficientCompactor;
pub use fidelity::FidelityMode;
