use vstd::prelude::*;

verus! {

/// The ways in which reading a package or extracting its text can fail.
#[derive(Clone, Copy, Debug, PartialEq, Eq, Structural)]
pub enum ExtractionError {
    /// The package is not a readable archive, or it lacks the main markup part.
    ArchiveEntryNotFound,
    /// The markup part is present but is not well-formed structural markup.
    MalformedMarkup,
    /// A text chunk could not be decoded as text.
    EncodingError,
    /// Reading bytes out of the archive failed.
    IoError,
}

/// One structural event of the markup stream, as the extractor consumes it.
/// Element names and text content are byte strings exactly as the markup
/// holds them; text content still carries its entity escapes.
pub enum MarkupEvent {
    /// An opening tag, with the element's name.
    StartElement(Vec<u8>),
    /// A closing tag, with the element's name.
    EndElement(Vec<u8>),
    /// A run of character data, raw and still escaped.
    TextChunk(Vec<u8>),
    /// Any event that carries no visible text and no element boundary
    /// the extractor cares about (a comment, a declaration, an empty tag).
    Other,
    /// The end of the markup stream.
    EndOfStream,
}

/// The mathematical shadow of a `MarkupEvent`.
pub enum EventModel {
    Start(Seq<u8>),
    End(Seq<u8>),
    Text(Seq<u8>),
    Other,
    EndOfStream,
}

impl View for MarkupEvent {
    type V = EventModel;

    open spec fn view(&self) -> EventModel {
        match self {
            MarkupEvent::StartElement(n) => EventModel::Start(n@),
            MarkupEvent::EndElement(n) => EventModel::End(n@),
            MarkupEvent::TextChunk(t) => EventModel::Text(t@),
            MarkupEvent::Other => EventModel::Other,
            MarkupEvent::EndOfStream => EventModel::EndOfStream,
        }
    }
}

/// An event-or-error outcome, seen through the events' views.
pub open spec fn event_res_view(r: Result<MarkupEvent, ExtractionError>) -> Result<
    EventModel,
    ExtractionError,
> {
    match r {
        Ok(ev) => Ok(ev@),
        Err(e) => Err(e),
    }
}

/// A text-or-error outcome, seen through the string's view.
pub open spec fn text_res_view(r: Result<String, ExtractionError>) -> Result<
    Seq<char>,
    ExtractionError,
> {
    match r {
        Ok(t) => Ok(t@),
        Err(e) => Err(e),
    }
}

/// The name of the element whose content is field-instruction text,
/// `w:instrText`, as its bytes.
pub open spec fn instr_tag() -> Seq<u8> {
    seq![119u8, 58u8, 105u8, 110u8, 115u8, 116u8, 114u8, 84u8, 101u8, 120u8, 116u8]
}

/// Builds the field-instruction element name, `w:instrText`, as owned bytes.
fn instr_tag_bytes() -> (v: Vec<u8>)
    ensures
        v@ == instr_tag(),
{
    let mut v: Vec<u8> = Vec::new();
    v.push(119);
    v.push(58);
    v.push(105);
    v.push(110);
    v.push(115);
    v.push(116);
    v.push(114);
    v.push(84);
    v.push(101);
    v.push(120);
    v.push(116);
    proof {
        assert(v@ =~= instr_tag());
    }
    v
}

/// Decides whether an element name is the field-instruction element name.
pub fn is_instr_tag(name: &Vec<u8>) -> (r: bool)
    ensures
        r == (name@ == instr_tag()),
{
    let tag = instr_tag_bytes();
    if name.len() != tag.len() {
        return false;
    }
    let mut i: usize = 0;
    while i < tag.len()
        invariant
            i <= tag.len(),
            name@.len() == tag@.len(),
            tag@ == instr_tag(),
            forall|j: int| 0 <= j < i ==> name@[j] == tag@[j],
        decreases tag@.len() - i,
    {
        if name[i] != tag[i] {
            return false;
        }
        i = i + 1;
    }
    proof {
        assert(name@ =~= instr_tag());
    }
    true
}

} // verus!
