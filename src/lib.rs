//! Reading of fixed-width flat text records: fields sliced out of each line by
//! byte offsets, normalised by a catalogue of rules, gathered into rows and
//! datasets, and rendered as CSV or JSON.

pub mod datafield;
pub mod datafile;
pub mod datarow;
pub mod loadwarning;
pub mod posthelp;
pub mod text;

pub use datafield::{DataField, DataFieldDef, DataFieldError, PostError};
pub use datafile::{DataFile, DataFileError};
pub use datarow::{DataRow, DataRowError, MINIMUM_ROW_LENGTH};
pub use loadwarning::LoadWarning;
pub use posthelp::PostProcess;
