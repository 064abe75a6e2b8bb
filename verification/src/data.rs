//! Data preparation: the raw records read from a labelled URL list, their
//! one-hot encoding, and the dataset of encoded items.

pub mod dataset;
pub mod preprocessing;
pub mod source;

pub use crate::data::dataset::{Dataset, RawItem};
pub use crate::data::preprocessing::{OHEStrategy, Preprocessing};
pub use crate::data::source::RawRecord;
