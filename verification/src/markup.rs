use vstd::prelude::*;
use vstd::string::StringExecFns;
use crate::events::{
    MarkupEvent, EventModel, ExtractionError, event_res_view, text_res_view, instr_tag,
    is_instr_tag,
};
use crate::textops::{spec_trim, trim_str};

verus! {

/// A forward-only stream of structural markup events over a byte buffer,
/// consumed exactly once per extraction. The parser inside is opaque to the
/// proofs; everything stated about it goes through `stream_pending` and
/// `markup_outcomes`.
#[verifier::external_body]
pub struct MarkupStream {
    reader: quick_xml::Reader<std::io::Cursor<Vec<u8>>>,
    buf: Vec<u8>,
}

/// The outcomes that reading `xml` as structural markup yields, in order:
/// one entry per event the parser hands out, an error entry where parsing
/// fails. Reading is a function of the bytes alone, so the whole sequence
/// is determined by `xml`; nothing states which events a given byte string
/// yields, only how the extractor treats whatever comes.
pub uninterp spec fn markup_outcomes(xml: Seq<u8>) -> Seq<Result<EventModel, ExtractionError>>;

/// The outcomes that a stream has yet to yield.
pub uninterp spec fn stream_pending(s: MarkupStream) -> Seq<Result<EventModel, ExtractionError>>;

/// What decoding a raw text chunk yields: the chunk as text, entity
/// references expanded, or nothing where the bytes do not decode. A function
/// of the bytes alone.
pub uninterp spec fn decoded_text(raw: Seq<u8>) -> Option<Seq<char>>;

/// Opens a streaming parser over the markup bytes.
///
/// Relies on quick_xml's `Reader::from_reader`, configured with
/// `trim_text(true)`: text content is handed out with surrounding whitespace
/// removed, and whitespace-only content is elided.
#[verifier::external_body]
fn open_stream(xml: &Vec<u8>) -> (s: MarkupStream)
    ensures
        stream_pending(s) == markup_outcomes(xml@),
{
    let mut reader = quick_xml::Reader::from_reader(std::io::Cursor::new(xml.clone()));
    reader.trim_text(true);
    MarkupStream { reader, buf: Vec::new() }
}

/// Yields the next structural event of the stream.
///
/// Relies on quick_xml's `Reader::read_event_into`: start and end tags carry
/// the element's name, text carries its raw escaped bytes, the end of the
/// input is its own event and comes again on every later call, and a parse
/// failure is terminal for the document. Events without text or an element
/// boundary (comments, declarations, empty tags) come through as `Other`.
#[verifier::external_body]
fn next_event(s: &mut MarkupStream) -> (r: Result<MarkupEvent, ExtractionError>)
    ensures
        event_res_view(r) == (if stream_pending(*old(s)).len() > 0 {
            stream_pending(*old(s))[0]
        } else {
            Ok::<EventModel, ExtractionError>(EventModel::EndOfStream)
        }),
        stream_pending(*final(s)) == (if stream_pending(*old(s)).len() > 0 {
            stream_pending(*old(s)).drop_first()
        } else {
            Seq::<Result<EventModel, ExtractionError>>::empty()
        }),
{
    s.buf.clear();
    match s.reader.read_event_into(&mut s.buf) {
        Ok(quick_xml::events::Event::Start(e)) => Ok(
            MarkupEvent::StartElement(e.name().as_ref().to_vec()),
        ),
        Ok(quick_xml::events::Event::End(e)) => Ok(
            MarkupEvent::EndElement(e.name().as_ref().to_vec()),
        ),
        Ok(quick_xml::events::Event::Text(e)) => Ok(
            MarkupEvent::TextChunk(e.into_inner().into_owned()),
        ),
        Ok(quick_xml::events::Event::Eof) => Ok(MarkupEvent::EndOfStream),
        Ok(_) => Ok(MarkupEvent::Other),
        Err(_) => Err(ExtractionError::MalformedMarkup),
    }
}

/// Decodes a raw text chunk into text.
///
/// Relies on quick_xml's `escape::unescape` (after `str::from_utf8`): the
/// result depends on the bytes alone; any failure of either step is an
/// encoding error.
#[verifier::external_body]
fn decode_chunk(raw: &Vec<u8>) -> (r: Result<String, ExtractionError>)
    ensures
        match r {
            Ok(t) => decoded_text(raw@) == Some(t@),
            Err(e) => decoded_text(raw@) is None && e == ExtractionError::EncodingError,
        },
{
    match core::str::from_utf8(raw).ok().and_then(|s| quick_xml::escape::unescape(s).ok()) {
        Some(t) => Ok(t.into_owned()),
        None => Err(ExtractionError::EncodingError),
    }
}

/// An extraction in flight: either still scanning, with the current
/// field-instruction flag and the text accumulated so far, or finished
/// with its outcome.
pub enum ScanState {
    Scanning { in_field_instruction: bool, acc: Seq<char> },
    Finished { outcome: Result<Seq<char>, ExtractionError> },
}

/// Runs the extractor's state machine over a sequence of event outcomes,
/// starting from the given flag and accumulated text.
///
/// A start or end tag of the field-instruction element toggles the flag; a
/// text chunk is skipped when `strip` is set and the flag holds, and is
/// otherwise decoded and appended with a single following space; any error
/// outcome, and a chunk that does not decode, finishes the scan with that
/// error; the end of the stream finishes it with the accumulated text,
/// trimmed. Events of other kinds change nothing.
pub open spec fn scan(
    outcomes: Seq<Result<EventModel, ExtractionError>>,
    strip: bool,
    in_instr: bool,
    acc: Seq<char>,
) -> ScanState
    decreases outcomes.len(),
{
    if outcomes.len() == 0 {
        ScanState::Scanning { in_field_instruction: in_instr, acc }
    } else {
        match outcomes[0] {
            Err(e) => ScanState::Finished { outcome: Err(e) },
            Ok(ev) => match ev {
                EventModel::Start(n) => scan(
                    outcomes.drop_first(),
                    strip,
                    if n == instr_tag() {
                        true
                    } else {
                        in_instr
                    },
                    acc,
                ),
                EventModel::End(n) => scan(
                    outcomes.drop_first(),
                    strip,
                    if n == instr_tag() {
                        false
                    } else {
                        in_instr
                    },
                    acc,
                ),
                EventModel::Text(raw) => if strip && in_instr {
                    scan(outcomes.drop_first(), strip, in_instr, acc)
                } else {
                    match decoded_text(raw) {
                        None => ScanState::Finished {
                            outcome: Err(ExtractionError::EncodingError),
                        },
                        Some(t) => scan(outcomes.drop_first(), strip, in_instr, acc + t + seq![' ']),
                    }
                },
                EventModel::Other => scan(outcomes.drop_first(), strip, in_instr, acc),
                EventModel::EndOfStream => ScanState::Finished { outcome: Ok(spec_trim(acc)) },
            },
        }
    }
}

/// The outcome of a scan: a scan that runs out of outcomes without an
/// end-of-stream event ends as one that saw the end of the stream.
pub open spec fn scan_result(
    outcomes: Seq<Result<EventModel, ExtractionError>>,
    strip: bool,
    in_instr: bool,
    acc: Seq<char>,
) -> Result<Seq<char>, ExtractionError> {
    match scan(outcomes, strip, in_instr, acc) {
        ScanState::Scanning { in_field_instruction, acc } => Ok(spec_trim(acc)),
        ScanState::Finished { outcome } => outcome,
    }
}

/// The text that extraction yields for a stream of event outcomes: the scan
/// started outside any field-instruction element, with nothing accumulated.
pub open spec fn spec_extract(
    outcomes: Seq<Result<EventModel, ExtractionError>>,
    strip: bool,
) -> Result<Seq<char>, ExtractionError> {
    scan_result(outcomes, strip, false, Seq::empty())
}

/// Extracts the visible text from raw markup bytes, one pass over the event
/// stream. Text inside a field-instruction element is dropped when
/// `strip_field_instructions` is set; every kept chunk is decoded and
/// followed by one space; the result is trimmed of outer whitespace.
pub fn extract_markup_text(xml: &Vec<u8>, strip_field_instructions: bool) -> (r: Result<
    String,
    ExtractionError,
>)
    ensures
        text_res_view(r) == spec_extract(markup_outcomes(xml@), strip_field_instructions),
{
    let mut stream = open_stream(xml);
    let mut text = String::new();
    let mut in_instr = false;
    let ghost target = spec_extract(markup_outcomes(xml@), strip_field_instructions);
    loop
        invariant
            target == spec_extract(markup_outcomes(xml@), strip_field_instructions),
            scan_result(stream_pending(stream), strip_field_instructions, in_instr, text@)
                == target,
        decreases stream_pending(stream).len(),
    {
        let ghost pending = stream_pending(stream);
        match next_event(&mut stream) {
            Err(e) => {
                proof {
                    assert(pending.len() > 0);
                    assert(scan(pending, strip_field_instructions, in_instr, text@)
                        == (ScanState::Finished { outcome: Err::<Seq<char>, ExtractionError>(e) }));
                }
                return Err(e);
            },
            Ok(ev) => match ev {
                MarkupEvent::StartElement(n) => {
                    if is_instr_tag(&n) {
                        in_instr = true;
                    }
                },
                MarkupEvent::EndElement(n) => {
                    if is_instr_tag(&n) {
                        in_instr = false;
                    }
                },
                MarkupEvent::TextChunk(raw) => {
                    if !(strip_field_instructions && in_instr) {
                        match decode_chunk(&raw) {
                            Err(e) => {
                                proof {
                                    assert(pending.len() > 0);
                                    assert(scan(pending, strip_field_instructions, in_instr, text@)
                                        == (ScanState::Finished {
                                        outcome: Err::<Seq<char>, ExtractionError>(
                                            ExtractionError::EncodingError,
                                        ),
                                    }));
                                }
                                return Err(e);
                            },
                            Ok(t) => {
                                text.append(t.as_str());
                                text.append(" ");
                                proof {
                                    reveal_strlit(" ");
                                    assert(" "@ =~= seq![' ']);
                                }
                            },
                        }
                    }
                },
                MarkupEvent::EndOfStream => {
                    proof {
                        if pending.len() > 0 {
                            assert(scan(pending, strip_field_instructions, in_instr, text@)
                                == (ScanState::Finished {
                                outcome: Ok::<Seq<char>, ExtractionError>(spec_trim(text@)),
                            }));
                        }
                    }
                    return Ok(trim_str(text.as_str()));
                },
                MarkupEvent::Other => {},
            },
        }
    }
}

} // verus!
