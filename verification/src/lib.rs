//! Subresource Integrity digests for byte streams: computing them, writing
//! and reading their text form, and checking files against a checklist.
//!
//! - [`algorithm`]: the digest algorithms, ordered by strength.
//! - [`integrity`]: integrity values and integrity strings.
//! - [`builder`]: the digests of a stream under several algorithms.
//! - [`checker`]: checking a stream against the digests claimed for it.
//! - [`checklist`]: what a line of a checklist means, what is counted and
//!   what is said of it.
//! - [`check`], [`compute`]: whole runs over inputs that were read
//!   beforehand.
//! - [`base64`], [`text`]: the encodings underneath.
//! - [`hasher`]: the running digests, which the `ssri` crate computes.
//!
//! Reading files is left to the caller. A caller that streams feeds a
//! [`DigestBuilder`] or an [`IntegrityVerifier`] piece by piece and hands
//! what came of it to the functions of [`checklist`].

pub mod algorithm;
pub mod base64;
pub mod builder;
pub mod check;
pub mod checker;
pub mod checklist;
pub mod compute;
pub mod errors;
pub mod hasher;
pub mod integrity;
pub mod text;

use vstd::prelude::*;

pub use algorithm::Algorithm;
pub use builder::DigestBuilder;
pub use checker::IntegrityVerifier;
pub use checklist::{ChecklistLine, LineOutcome, Stats};
pub use compute::compute;
pub use errors::SrisumError;
pub use integrity::{Integrity, ParseError};

verus! {

/// What was asked for on the command line.
#[derive(Debug)]
pub struct CliArgs {
    /// The files to process, each named by the bytes of its path. `-` is
    /// the standard input.
    pub files: Vec<Vec<u8>>,
    /// The names of the algorithms to compute digests with.
    pub algorithms: Vec<String>,
    /// Print digests only, without the name of the file.
    pub digest_only: bool,
    /// Read checklists from the files and check them.
    pub check: bool,
    /// Say nothing of files that are missing.
    pub ignore_missing: bool,
    /// Do not print a line for a file that passed.
    pub quiet: bool,
    /// Print nothing at all.
    pub status: bool,
    /// Warn about lines that are not well formed.
    pub warn: bool,
}

} // verus!
