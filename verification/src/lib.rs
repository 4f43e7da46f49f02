//! Inspection and editing core of a byte-level file viewer.
//!
//! The document of the viewer is a buffer of bytes. This crate maps a scroll
//! position onto the rows of the buffer that are in view ([`viewport`]),
//! keeps the selected range of offsets ([`selection`]), converts between
//! bytes and their hexadecimal, binary and octal notation ([`hex`],
//! [`importer`]), counts how often each byte value occurs ([`histogram`]),
//! and parses the structure of the formats it knows: the chunk table of a
//! PNG container with its checksums ([`png`], [`crc`]), the certificates of
//! a PEM or DER buffer ([`cert`]) and the nodes of an XML document ([`xml`]),
//! chosen by the format that was detected ([`detection`]). The state of one
//! open document, with what was computed from its buffer so far, is
//! [`WombatApp`].

pub mod app;
pub mod cert;
pub mod crc;
pub mod detection;
pub mod hex;
pub mod histogram;
pub mod importer;
pub mod png;
pub mod selection;
pub mod text;
pub mod viewport;
pub mod word;
pub mod xml;

pub use app::WombatApp;
