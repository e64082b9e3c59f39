//! Extracts the plain text of word-processing document packages and merges
//! the text of several packages into one string.
//!
//! A package is a ZIP archive whose main markup part is an XML stream; the
//! extractor scans that stream once, keeps the visible text runs, and can
//! suppress field-instruction text (the machine-readable encoding of a
//! hyperlink) while keeping the link's visible label. The merger joins the
//! per-document texts, in order, with a blank line between them.

pub mod events;
pub mod laws;
pub mod markup;
pub mod merge;
pub mod package;
pub mod textops;
