use std::io::{Cursor, Write};

use docx_merge::events::ExtractionError;
use docx_merge::merge::merge_docx_files;
use docx_merge::package::extract_text_from_docx;

use zip::write::SimpleFileOptions;
use zip::CompressionMethod;
use zip::ZipWriter;

/// Builds an in-memory DOCX-like package whose main markup part holds a
/// single paragraph with the given text.
fn create_test_docx(text: &str) -> Vec<u8> {
    let xml_content = format!(
        r#"<?xml version="1.0" encoding="UTF-8" standalone="yes"?>
<w:document xmlns:w="http://schemas.openxmlformats.org/wordprocessingml/2006/main">
  <w:body>
    <w:p>
      <w:r>
        <w:t>{}</w:t>
      </w:r>
    </w:p>
  </w:body>
</w:document>"#,
        text
    );
    create_test_docx_with_xml(&xml_content)
}

/// Builds an in-memory DOCX-like package with the given markup as its main
/// part, stored without compression.
fn create_test_docx_with_xml(xml_content: &str) -> Vec<u8> {
    let mut zip = ZipWriter::new(Cursor::new(Vec::new()));
    let options = SimpleFileOptions::default().compression_method(CompressionMethod::Stored);
    zip.start_file("word/document.xml", options).unwrap();
    zip.write_all(xml_content.as_bytes()).unwrap();
    zip.finish().unwrap().into_inner()
}

#[test]
fn test_extract_text_from_docx_without_strip() {
    let test_text = "Hello, world!";
    let docx = create_test_docx(test_text);
    let extracted = extract_text_from_docx(&docx, false).unwrap();
    assert!(extracted.contains(test_text));
}

#[test]
fn test_merge_docx_files_without_strip() {
    let test_text1 = "First document text.";
    let test_text2 = "Second document text.";
    let docx1 = create_test_docx(test_text1);
    let docx2 = create_test_docx(test_text2);

    let merged = merge_docx_files(&vec![docx1, docx2], false).unwrap();
    assert!(merged.contains(test_text1));
    assert!(merged.contains(test_text2));
    assert!(merged.contains("\n\n"));
}

#[test]
fn test_invalid_docx_file() {
    let not_a_docx = b"Not a valid docx file".to_vec();
    let result = extract_text_from_docx(&not_a_docx, false);
    assert!(result.is_err());
}

#[test]
fn test_strip_hyperlink_instr_text() {
    // A hyperlink field is stored as instruction text (w:instrText)
    // followed by the visible text.
    let xml_content = r#"<?xml version="1.0" encoding="UTF-8" standalone="yes"?>
<w:document xmlns:w="http://schemas.openxmlformats.org/wordprocessingml/2006/main"
            xmlns:r="http://schemas.openxmlformats.org/officeDocument/2006/relationships">
  <w:body>
    <w:p>
      <w:r>
        <w:fldChar w:fldCharType="begin"/>
      </w:r>
      <w:r>
        <w:instrText>HYPERLINK "https://example.com" \t "_blank"</w:instrText>
      </w:r>
      <w:r>
        <w:fldChar w:fldCharType="separate"/>
      </w:r>
      <w:r>
        <w:t>Visible Link Text</w:t>
      </w:r>
      <w:r>
        <w:fldChar w:fldCharType="end"/>
      </w:r>
    </w:p>
  </w:body>
</w:document>"#;
    let docx = create_test_docx_with_xml(xml_content);

    let extracted_with_strip = extract_text_from_docx(&docx, true).unwrap();
    let extracted_without_strip = extract_text_from_docx(&docx, false).unwrap();

    assert!(!extracted_with_strip.contains("HYPERLINK"), "Instruction text should be stripped");
    assert!(extracted_with_strip.contains("Visible Link Text"), "Visible text should be kept");
    assert!(
        extracted_without_strip.contains("HYPERLINK"),
        "Instruction text is present when not stripping"
    );
    assert!(extracted_without_strip.contains("Visible Link Text"), "Visible text is present");
}

#[test]
fn single_run_extracts_exactly_under_both_flags() {
    let docx = create_test_docx("Hello, world!");
    assert_eq!(extract_text_from_docx(&docx, false).unwrap(), "Hello, world!");
    assert_eq!(extract_text_from_docx(&docx, true).unwrap(), "Hello, world!");
}

#[test]
fn stripping_changes_nothing_without_instructions() {
    let docx = create_test_docx("Just ordinary text runs here.");
    let with_strip = extract_text_from_docx(&docx, true).unwrap();
    let without_strip = extract_text_from_docx(&docx, false).unwrap();
    assert_eq!(with_strip, without_strip);
}

#[test]
fn runs_are_joined_with_single_spaces_and_trimmed() {
    let xml_content = r#"<?xml version="1.0"?>
<w:document xmlns:w="http://schemas.openxmlformats.org/wordprocessingml/2006/main">
  <w:body>
    <w:p>
      <w:r><w:t>Hello</w:t></w:r>
      <w:r><w:t>World</w:t></w:r>
    </w:p>
  </w:body>
</w:document>"#;
    let docx = create_test_docx_with_xml(xml_content);
    assert_eq!(extract_text_from_docx(&docx, false).unwrap(), "Hello World");
}

#[test]
fn entity_references_are_decoded() {
    let xml_content = r#"<w:document xmlns:w="x"><w:t>A &amp; B &lt;C&gt;</w:t></w:document>"#;
    let docx = create_test_docx_with_xml(xml_content);
    assert_eq!(extract_text_from_docx(&docx, false).unwrap(), "A & B <C>");
}

#[test]
fn unknown_entity_reference_is_an_encoding_error() {
    let xml_content = r#"<w:document xmlns:w="x"><w:t>bad &nosuchentity; here</w:t></w:document>"#;
    let docx = create_test_docx_with_xml(xml_content);
    let result = extract_text_from_docx(&docx, false);
    assert!(matches!(result, Err(ExtractionError::EncodingError)));
}

#[test]
fn mismatched_end_tag_is_malformed_markup() {
    let xml_content = "<w:document><w:p>text</w:x></w:document>";
    let docx = create_test_docx_with_xml(xml_content);
    let result = extract_text_from_docx(&docx, false);
    assert!(matches!(result, Err(ExtractionError::MalformedMarkup)));
}

#[test]
fn unterminated_element_is_malformed_markup() {
    let xml_content = "<w:document><w:p>text</w:document>";
    let docx = create_test_docx_with_xml(xml_content);
    let result = extract_text_from_docx(&docx, false);
    assert!(matches!(result, Err(ExtractionError::MalformedMarkup)));
}

#[test]
fn archive_without_main_part_is_entry_not_found() {
    let mut zip = ZipWriter::new(Cursor::new(Vec::new()));
    let options = SimpleFileOptions::default().compression_method(CompressionMethod::Stored);
    zip.start_file("word/other.xml", options).unwrap();
    zip.write_all(b"<doc/>").unwrap();
    let package = zip.finish().unwrap().into_inner();
    let result = extract_text_from_docx(&package, false);
    assert!(matches!(result, Err(ExtractionError::ArchiveEntryNotFound)));
}

#[test]
fn garbage_bytes_are_entry_not_found() {
    let result = extract_text_from_docx(&vec![1u8, 2, 3, 4], false);
    assert!(matches!(result, Err(ExtractionError::ArchiveEntryNotFound)));
}

#[test]
fn compressed_main_part_is_read_in_full() {
    let xml_content = r#"<w:document xmlns:w="x"><w:t>Squeezed text survives.</w:t></w:document>"#;
    let mut zip = ZipWriter::new(Cursor::new(Vec::new()));
    let options = SimpleFileOptions::default().compression_method(CompressionMethod::Deflated);
    zip.start_file("word/document.xml", options).unwrap();
    zip.write_all(xml_content.as_bytes()).unwrap();
    let package = zip.finish().unwrap().into_inner();
    assert_eq!(extract_text_from_docx(&package, false).unwrap(), "Squeezed text survives.");
}

#[test]
fn merging_two_one_run_documents() {
    let docx1 = create_test_docx("A.");
    let docx2 = create_test_docx("B.");
    let merged = merge_docx_files(&vec![docx1, docx2], false).unwrap();
    assert_eq!(merged, "A.\n\nB.");
}

#[test]
fn merging_nothing_yields_empty_text() {
    let merged = merge_docx_files(&Vec::new(), false).unwrap();
    assert_eq!(merged, "");
}

#[test]
fn merge_aborts_on_the_first_failing_document() {
    let good = create_test_docx("Fine.");
    let bad = b"not an archive".to_vec();
    let result = merge_docx_files(&vec![good, bad], false);
    assert!(matches!(result, Err(ExtractionError::ArchiveEntryNotFound)));
}

#[test]
fn extraction_is_idempotent_on_its_output() {
    let docx = create_test_docx("Some plain text, twice over.");
    let once = extract_text_from_docx(&docx, false).unwrap();
    let again = extract_text_from_docx(&create_test_docx(&once), false).unwrap();
    assert_eq!(once, again);
}

#[test]
fn stripped_text_does_not_depend_on_instruction_content() {
    let with_content = create_test_docx_with_xml(
        r#"<w:document xmlns:w="x"><w:instrText>HYPERLINK "https://x"</w:instrText><w:t>Visible</w:t></w:document>"#,
    );
    let without_content = create_test_docx_with_xml(
        r#"<w:document xmlns:w="x"><w:instrText></w:instrText><w:t>Visible</w:t></w:document>"#,
    );
    assert_eq!(
        extract_text_from_docx(&with_content, true).unwrap(),
        extract_text_from_docx(&without_content, true).unwrap(),
    );
}
