//! Data reduction for a Coulomb-explosion imaging experiment: decoding of the
//! multichannel-scaler (MCS) list files, charge assignment of detector spots,
//! pairing of spots that belong to one event, energy spectra, and the layout of
//! the directories that hold each stage of the data.

pub mod numeral;
pub mod paths;
pub mod mylib;
pub mod file_names;
pub mod point_pair;
pub mod pattern;
pub mod analyze;
pub mod img_integrate;
pub mod mcs1;
