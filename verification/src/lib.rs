//! Filter descriptions and time-domain splitting for quality control of
//! time-tagged observation records.
//!
//! A [`Filter`] says what to keep, to leave out or to thin out of a dataset.
//! It is read from a short descriptor such as `>G08, G09` or
//! `decim:10 min:L1C`; applying it is left to whoever owns the data.
//! [`QcSplit`] is what a time-ordered dataset offers to be cut at an instant
//! or into windows of one duration.

pub mod errors;
pub mod processing;
pub mod split;
pub mod text;
pub mod time;

pub use errors::{QcAngleParsingError, QcPipelineError, QcScopeError, QcSelectionError};
pub use processing::{
    DecimationError, DecimationFilter, DecimationFilterType, Error, Filter, FilterItem, ItemError,
    MaskError, MaskFilter, MaskOperand, Sv,
};
pub use split::{QcSplit, Timeline};
pub use time::{Duration, Epoch};
