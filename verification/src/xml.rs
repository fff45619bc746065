//! A pull reader over XML text and the events it gives, as plain values.

use vstd::prelude::*;
use quick_xml::Reader;
use quick_xml::events::Event;
use quick_xml::Error as XmlError;
use quick_xml::events::attributes::AttrError;
use crate::xml::XmlToken::{Start, End, Text, Reference, Eof, Other, Failed};

verus! {

/// quick-xml's pull reader, opaque here.
#[verifier::external_type_specification]
#[verifier::external_body]
#[verifier::reject_recursive_types(R)]
pub struct ExReader<R>(Reader<R>);

/// quick-xml's syntax error, carried through opaque.
#[verifier::external_type_specification]
#[verifier::external_body]
pub struct ExXmlError(XmlError);

/// quick-xml's attribute error, carried through opaque.
#[verifier::external_type_specification]
#[verifier::external_body]
pub struct ExAttrError(AttrError);

/// One XML event, as the parts that reading SmartFox values needs.
pub enum XmlToken {
    /// A start tag with its name and its attributes (key and raw value, or the failure to read one).
    Start { name: Vec<u8>, attributes: Vec<Result<(Vec<u8>, Vec<u8>), AttrError>> },
    /// An end tag with its name.
    End { name: Vec<u8> },
    /// Escaped character data.
    Text { raw: Vec<u8> },
    /// A general reference such as `&lt;`, without `&` and `;`.
    Reference { raw: Vec<u8> },
    /// The end of the document.
    Eof,
    /// Any other event.
    Other,
    /// A syntax failure.
    Failed { error: XmlError },
}

/// An [`XmlToken`] as plain values; an attribute that could not be read, and a syntax failure,
/// keep quick-xml's error.
pub enum TokenView {
    Start { name: Seq<u8>, attributes: Seq<Result<(Seq<u8>, Seq<u8>), AttrError>> },
    End { name: Seq<u8> },
    Text { raw: Seq<u8> },
    Reference { raw: Seq<u8> },
    Eof,
    Other,
    Failed { error: XmlError },
}

pub open spec fn attribute_view(a: Result<(Vec<u8>, Vec<u8>), AttrError>) -> Result<(Seq<u8>, Seq<u8>), AttrError> {
    match a {
        Ok((k, v)) => Ok((k@, v@)),
        Err(e) => Err(e),
    }
}

/// The attributes of a start tag as plain values.
pub open spec fn attribute_views(s: Seq<Result<(Vec<u8>, Vec<u8>), AttrError>>) -> Seq<Result<(Seq<u8>, Seq<u8>), AttrError>> {
    s.map_values(|a: Result<(Vec<u8>, Vec<u8>), AttrError>| attribute_view(a))
}

impl View for XmlToken {
    type V = TokenView;

    open spec fn view(&self) -> TokenView {
        match self {
            XmlToken::Start { name, attributes } => TokenView::Start {
                name: name@,
                attributes: attribute_views(attributes@),
            },
            XmlToken::End { name } => TokenView::End { name: name@ },
            XmlToken::Text { raw } => TokenView::Text { raw: raw@ },
            XmlToken::Reference { raw } => TokenView::Reference { raw: raw@ },
            XmlToken::Eof => TokenView::Eof,
            XmlToken::Other => TokenView::Other,
            XmlToken::Failed { error } => TokenView::Failed { error: *error },
        }
    }
}

/// The event, as plain values, that a quick-xml reader over `text` returns on its `index`-th
/// read (counting from zero), when it trims white space around text or not. Once the reader
/// has reached the end of its input, every later read gives the end again.
pub uninterp spec fn xml_token_at(text: Seq<char>, trims_text: bool, index: nat) -> TokenView;

/// What an [`XmlReader`] stands for: the text it was opened on, whether it trims white space
/// around text, and how many events it has returned.
pub ghost struct ReaderState {
    pub input: Seq<char>,
    pub trims_text: bool,
    pub reads: nat,
}

/// A quick-xml reader over a text, with a record of that text, of its trimming and of the
/// number of events it has returned. Only the functions of this module build or change one,
/// and each keeps the record true of the reader it holds.
pub struct XmlReader<'a> {
    reader: Reader<&'a [u8]>,
    input: Ghost<Seq<char>>,
    trims_text: Ghost<bool>,
    reads: Ghost<nat>,
}

impl<'a> View for XmlReader<'a> {
    type V = ReaderState;

    closed spec fn view(&self) -> ReaderState {
        ReaderState { input: self.input@, trims_text: self.trims_text@, reads: self.reads@ }
    }
}

/// Opens a quick-xml reader over `xml` (`Reader::from_str`). Claimed: the reader reads `xml`, has
/// returned no event yet and, as the default configuration has it, does not trim text.
#[verifier::external_body]
pub(crate) fn open_reader<'a>(xml: &'a str) -> (reader: XmlReader<'a>)
    ensures
        reader@ == (ReaderState { input: xml@, trims_text: false, reads: 0 }),
{
    XmlReader { reader: Reader::from_str(xml), input: Ghost(xml@), trims_text: Ghost(false), reads: Ghost(0) }
}

/// Makes a quick-xml reader trim white space around text (`Config::trim_text`), before its first
/// read, so that every event it returns is read with trimming. Claimed: it still reads the same
/// text, now trimming.
#[verifier::external_body]
pub(crate) fn trim_text(reader: &mut XmlReader)
    requires
        old(reader)@.reads == 0,
    ensures
        final(reader)@ == (ReaderState { trims_text: true, ..old(reader)@ }),
{
    reader.reader.config_mut().trim_text(true);
    reader.trims_text = Ghost(true);
}

/// Reads the next event (`Reader::read_event`) and copies out its parts. Claimed: the event is
/// the one that a reader over the same text and with the same trimming returns on that read,
/// which those and the number of earlier reads determine (past the end of the input, the end
/// again); the reader then has one more read behind it.
#[verifier::external_body]
pub(crate) fn read_token(reader: &mut XmlReader) -> (token: XmlToken)
    ensures
        token@ == xml_token_at(old(reader)@.input, old(reader)@.trims_text, old(reader)@.reads),
        final(reader)@ == (ReaderState { reads: old(reader)@.reads + 1, ..old(reader)@ }),
{
    reader.reads = Ghost(reader.reads@ + 1);
    match reader.reader.read_event() {
        Ok(Event::Start(e)) => Start {
            name: e.name().0.to_vec(),
            attributes: e.attributes().map(|a| a.map(|a| (a.key.0.to_vec(), a.value.to_vec()))).collect(),
        },
        Ok(Event::End(e)) => End { name: e.name().0.to_vec() },
        Ok(Event::Text(t)) => Text { raw: t.to_vec() },
        Ok(Event::GeneralRef(g)) => Reference { raw: g.to_vec() },
        Ok(Event::Eof) => Eof,
        Ok(_) => Other,
        Err(error) => Failed { error },
    }
}

} // verus!
