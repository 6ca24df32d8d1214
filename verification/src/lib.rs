//! Inventory of a directory of game add-ons.
//!
//! Every add-on is an archive file.  The library reads the directory tree
//! of an archive, takes the package descriptor and the mission descriptor
//! out of it, finds the catalog id that the file's name carries, keeps
//! track of which catalog records came from the cache and which have to be
//! asked for, and puts everything together into one entry per file.
//!
//! The library does no input or output.  A caller lists the directory,
//! reads the bytes, consults the cache and calls the remote catalog; the
//! library says what to read and ask for, and what follows from the answers.
//!
//! * [`archive`]: the archive format and its reader
//! * [`encoding`]: the format from the writer's side, and the proof that
//!   the reader reads back what was written
//! * [`keyvalues`]: key-value text documents
//! * [`metadata`]: the descriptors and their decoders
//! * [`workshop_id`]: catalog ids in file names
//! * [`catalog`]: catalog records, cache file names and the resolver
//! * [`scanner`]: archives of a directory listing, candidates and entries
//! * [`addons`]: switching an add-on on and off
//! * [`transfer`]: progress of a download
//! * [`config`]: the application's settings
//! * [`logger`]: the lines of the log file
//! * [`text`]: helpers on characters, strings and decimal numbers

pub mod addons;
pub mod archive;
pub mod catalog;
pub mod config;
pub mod encoding;
pub mod keyvalues;
pub mod logger;
pub mod metadata;
pub mod scanner;
pub mod text;
pub mod transfer;
pub mod workshop_id;
