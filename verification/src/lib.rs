//! A store for time-indexed geospatial tracks.
//!
//! A track is a sequence of position samples that only grows. Each track
//! has a file of its own: a header and, after it, one fixed-size record for
//! each sample. The files lie in directories named by a digest of the
//! track's identifier.
//!
//! The library is the storage engine without its input and output. It
//! holds the byte layout of the files, the rules by which a file is opened,
//! read and appended to, the mapping of identifiers to paths, the grid on
//! which a track is resampled, and the compact form in which a track is
//! sent to readers. A host opens, reads and writes the files: it hands the
//! library the bytes it read, and makes the writes that the library names.
//!
//! What the rules do to a file is proved over the bytes of the file, in
//! [`track::file_proofs`]; that the compact form loses nothing, in
//! [`track::compact_proofs`].

pub mod config;
pub mod text;
pub mod track;
pub mod web;
