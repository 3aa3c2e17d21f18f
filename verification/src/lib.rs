//! `archive_core`: a pure-Rust, read-only **archive layer** reader for forensics.
//!
//! An archive is a transparent optional layer over the evidence: `foo.E01.gz`
//! resolves identically to `foo.E01`. [`peel_bytes`] removes one bare compression
//! layer, [`Archive`] lists and reads the members of one archive, and [`resolve`]
//! peels layer after layer until it reaches real files, under cumulative bomb
//! guards.
//!
//! Formats are determined by **content magic**, the authority for what was actually
//! applied; the file name is a secondary hint for the compressed-tar aliases and for
//! the cases where the magic is silent. See [`sniff`].
//!
//! [`detect`] classifies the most direct route to the evidence without inflating a
//! payload, [`peel_archive_seekable`] executes it as a seekable source, and
//! [`reassemble`] presents a split image as one.
//!
//! The outside codecs and readers stand behind [`backend`]; what is claimed of each
//! is written there, and everything else is proved from it.

pub mod archive;
pub mod backend;
pub mod detect;
pub mod detour;
pub mod error;
pub mod execute;
pub mod guard;
pub mod inflate;
pub mod laws;
pub mod meaning;
pub mod order;
pub mod peel;
pub mod plan;
pub mod reassemble;
pub mod resolve;
pub mod tape;
pub mod text;
pub mod vfs;

pub use archive::{Archive, ArchiveEntry};
pub use detect::{sniff, Format};
pub use detour::{peel_detour, Detour};
pub use error::{ArchiveError, Result};
pub use execute::{
    peel_archive_seekable, PeelSource, PeeledSource, ReadSeek, SeekFrom, SubRange, TempBacked,
};
pub use peel::{peel_bytes, PeelOutcome};
pub use plan::{detect, Access, AccessPlan, Codec, Segment, SegmentKind};
pub use reassemble::{reassemble, segment_sources, ConcatSource, Reassembled, SegmentSources};
pub use resolve::{resolve, Limits, Node};
pub use vfs::ArchiveOpener;
