//! Converts spectroscopy instrument export files (Edinburgh Instruments
//! LFP CSV exports, Horiba DataStation TSV exports, and the transposed
//! "R4" variant) into the Glotaran "wavelength explicit" ASCII trace
//! format.
//!
//! Each importer turns already-read source bytes into a header row plus a
//! body of string cells, and the shared writer renders the fixed four-line
//! preamble followed by the tab-delimited table. All file reading and the
//! append to the destination file stay with the caller; this crate only
//! computes.

pub mod csvio;
pub mod das6;
pub mod error;
pub mod label;
pub mod laws;
pub mod lfp;
pub mod numfmt;
pub mod parse_int;
pub mod pathname;
pub mod r4;
pub mod table;
pub mod writer;

pub use das6::run_das6;
pub use error::ErrorKind;
pub use error::UnparsableFileError;
pub use lfp::run_lfp;
pub use r4::run_r4;
