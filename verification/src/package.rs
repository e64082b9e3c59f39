use vstd::prelude::*;
use crate::events::{ExtractionError, text_res_view};
use crate::markup::{markup_outcomes, spec_extract, extract_markup_text};

verus! {

/// The name of the package entry that holds a document's main markup part.
pub open spec fn main_part_name() -> Seq<char> {
    "word/document.xml"@
}

/// What opening the package held in `data` and reading its entry called
/// `name` in full yields: the entry's bytes, or the error that the attempt
/// ends with. A function of the bytes and the name alone.
pub uninterp spec fn package_entry(data: Seq<u8>, name: Seq<char>) -> Result<
    Seq<u8>,
    ExtractionError,
>;

/// A bytes-or-error outcome, seen through the bytes' view.
pub open spec fn bytes_res_view(r: Result<Vec<u8>, ExtractionError>) -> Result<
    Seq<u8>,
    ExtractionError,
> {
    match r {
        Ok(b) => Ok(b@),
        Err(e) => Err(e),
    }
}

/// Opens the archive held in `data` and reads the entry called `name` in
/// full.
///
/// Relies on zip's `ZipArchive::new` and `ZipArchive::by_name` over an
/// in-memory cursor, and on reading the entry to its end: a buffer that is
/// not a readable archive, and an archive without the entry, are reported as
/// a missing entry; a failure while reading the entry's bytes out is an
/// input error.
#[verifier::external_body]
fn open_entry(data: &Vec<u8>, name: &str) -> (r: Result<Vec<u8>, ExtractionError>)
    ensures
        bytes_res_view(r) == package_entry(data@, name@),
        match r {
            Ok(_) => true,
            Err(e) => e == ExtractionError::ArchiveEntryNotFound || e == ExtractionError::IoError,
        },
{
    let cursor = std::io::Cursor::new(data.clone());
    let mut archive = match zip::ZipArchive::new(cursor) {
        Ok(a) => a,
        Err(_) => return Err(ExtractionError::ArchiveEntryNotFound),
    };
    let mut entry = match archive.by_name(name) {
        Ok(e) => e,
        Err(_) => return Err(ExtractionError::ArchiveEntryNotFound),
    };
    let mut bytes = Vec::new();
    match std::io::Read::read_to_end(&mut entry, &mut bytes) {
        Ok(_) => Ok(bytes),
        Err(_) => Err(ExtractionError::IoError),
    }
}

/// The text that extraction yields for a whole document package: the main
/// markup part is read out of the archive, and its event stream is scanned.
pub open spec fn spec_extract_package(data: Seq<u8>, strip: bool) -> Result<
    Seq<char>,
    ExtractionError,
> {
    match package_entry(data, main_part_name()) {
        Err(e) => Err(e),
        Ok(xml) => spec_extract(markup_outcomes(xml), strip),
    }
}

/// Extracts the plain text of the document package held in `package`.
///
/// The package's main markup part is located and read; its visible text is
/// accumulated, each chunk decoded and followed by one space, and the whole
/// trimmed of outer whitespace. With `strip_hyperlinks` set, text inside a
/// field-instruction element — the encoding of a hyperlink's underlying
/// field code — is left out, while the visible text of the link is kept.
pub fn extract_text_from_docx(package: &Vec<u8>, strip_hyperlinks: bool) -> (r: Result<
    String,
    ExtractionError,
>)
    ensures
        text_res_view(r) == spec_extract_package(package@, strip_hyperlinks),
{
    let xml = match open_entry(package, "word/document.xml") {
        Ok(b) => b,
        Err(e) => {
            return Err(e);
        },
    };
    extract_markup_text(&xml, strip_hyperlinks)
}

} // verus!
