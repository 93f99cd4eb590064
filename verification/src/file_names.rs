//! The stage-to-stage file mapping used by the image integration: the same
//! functions as `mylib::file_names`.

pub use crate::mylib::file_names::{cop2mcs, cop2molaxis, try_cop2mcs, try_cop2molaxis};
