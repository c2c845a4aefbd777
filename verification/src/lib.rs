//! Colophon's engine, the part of it that decides: reading font files and
//! colour profiles byte by byte, naming files and folders, fingerprinting
//! an album's exports, cutting a book into pages, pacing a composition,
//! counting what the linter counts, gathering and writing the colophon and
//! the captions, keeping the template catalogue and reading its names,
//! recording a change of format and the bench's verdict, guarding the
//! report channel, and keeping paths out of a log line. Every
//! function here carries its contract and is proved against it; what
//! touches the disk, the clock, a pixel or a floating-point millimetre lives
//! in the application around it.

pub mod octets;
pub mod chaines;
pub mod chemins;
pub mod font;
pub mod heic;
pub mod photos;
pub mod export;
pub mod audit;
pub mod layout;
pub mod log;
pub mod meta;
pub mod analyze;
pub mod imposition;
pub mod icc;
pub mod format;
pub mod colophon;
pub mod legende;
pub mod gabarit;
pub mod cover;
pub mod garde;
pub mod albums;
pub mod construction;
pub mod rapport;
pub mod relecture;
pub mod banc;
pub mod bascule;
