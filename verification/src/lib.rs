//! Sector-level extraction from Amiga floppy-disk image containers.
//!
//! Three containers are read: ADF (a raw sector dump), ADZ (a gzip-wrapped
//! ADF) and DMS (tracks stored one by one, each with its own compression mode
//! and checksum). Whatever the container, the result is the same linear,
//! sector-addressable image, cut to the requested sector range.
//!
//! [`format`] resolves which container applies, [`request`] holds the
//! request, and [`extract`] does the work. For a DMS container, [`dms`]
//! parses the records, [`track`] decodes each one by its mode ([`rle`],
//! [`quick`], [`lzh`]) and verifies it, and [`assemble`] places the tracks.

pub mod error;
pub mod format;
pub mod geometry;
pub mod request;
pub mod bits;
pub mod lz;
pub mod checksum;
pub mod rle;
pub mod quick;
pub mod huffman;
pub mod lzh;
pub mod dms;
pub mod track;
pub mod assemble;
pub mod gzip;
pub mod extract;
