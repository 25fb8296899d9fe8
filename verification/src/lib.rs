//! Reads the tabs that a running Firefox has open from its session-recovery
//! files.
//!
//! The library is the decision core. It decides which entries of a directory
//! listing are profile directories and recovery files ([`util`]), strips the
//! framing of a recovery file and inflates its payload
//! ([`decompress_lz4`]), reads the payload as a session document
//! ([`recovery`]), picks the history entry that each tab shows ([`tab`]), and
//! folds the outcomes of several candidate files into one result
//! ([`discovery`]). Reading directories and files is left to the caller, who
//! hands over what was read as plain values.

pub mod discovery;
pub mod error;
pub mod json;
pub mod recovery;
pub mod tab;
pub mod text;
pub mod util;

pub use discovery::{decode, list_tabs, Candidate, Discovery};
pub use error::{Error, FFResult};
pub use tab::{extract_tabs, Tab};
pub use util::{
    compress_lz4, decompress_lz4, frame, list_recovery_files, profile_dirs, profile_dirs_of, DirEntry, EntryKind, Located,
    Profile,
};
