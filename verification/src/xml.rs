//! Pull reading of XML documents through `quick_xml`, with the events
//! handed out as plain values.

use vstd::prelude::*;

use quick_xml::events::Event;

use crate::text::opt_view;

verus! {

#[verifier::external_type_specification]
#[verifier::external_body]
#[verifier::reject_recursive_types(R)]
pub struct ExXmlReader<R>(quick_xml::Reader<R>);

/// One event of an XML document, with names and text as strings.
#[derive(Debug, Clone, PartialEq, Eq)]
pub enum XmlEvent {
    /// A start tag, with its qualified name.
    Start(String),
    /// An end tag, with its qualified name.
    End(String),
    /// An empty-element tag, with its qualified name.
    Empty(String),
    /// Character data between tags (line ends normalised).
    Text(String),
    /// The content of a CDATA section.
    CData(String),
    /// An entity or character reference, with the text between `&` and `;`.
    Reference(String),
    /// A comment, declaration, processing instruction or doctype.
    Other,
    /// The end of the document.
    Eof,
    /// A syntax error.
    Error,
}

/// The mathematical value of an [`XmlEvent`].
pub enum XmlEventView {
    Start(Seq<char>),
    End(Seq<char>),
    Empty(Seq<char>),
    Text(Seq<char>),
    CData(Seq<char>),
    Reference(Seq<char>),
    Other,
    Eof,
    Error,
}

impl View for XmlEvent {
    type V = XmlEventView;

    open spec fn view(&self) -> XmlEventView {
        match self {
            XmlEvent::Start(s) => XmlEventView::Start(s@),
            XmlEvent::End(s) => XmlEventView::End(s@),
            XmlEvent::Empty(s) => XmlEventView::Empty(s@),
            XmlEvent::Text(s) => XmlEventView::Text(s@),
            XmlEvent::CData(s) => XmlEventView::CData(s@),
            XmlEvent::Reference(s) => XmlEventView::Reference(s@),
            XmlEvent::Other => XmlEventView::Other,
            XmlEvent::Eof => XmlEventView::Eof,
            XmlEvent::Error => XmlEventView::Error,
        }
    }
}

/// The event that a `quick_xml` reader over `source`, configured to trim
/// whitespace around text, returns from its `index`-th call of `read_event`
/// (counting from zero).
pub uninterp spec fn xml_event(source: Seq<char>, index: nat) -> XmlEventView;

/// The byte offset that such a reader reports as its buffer position after
/// `index` calls of `read_event`.
pub uninterp spec fn xml_offset(source: Seq<char>, index: nat) -> nat;

/// What `quick_xml::escape::unescape` returns for a string: the string with
/// its references replaced, or `None` where it reports an error.
pub uninterp spec fn xml_unescaped(raw: Seq<char>) -> Option<Seq<char>>;

/// A pull reader over an XML document held in memory: a `quick_xml`
/// reader with the document, how many events have been read, and whether
/// whitespace around text is dropped.
pub struct XmlReader<'a> {
    inner: quick_xml::Reader<&'a [u8]>,
    source: Ghost<Seq<char>>,
    count: Ghost<nat>,
    trim: Ghost<bool>,
}

/// Calls `quick_xml::Reader::from_str`: a reader positioned at the start of
/// `xml` with the default configuration, which keeps whitespace.
#[verifier::external_body]
fn reader_from_str<'a>(xml: &'a str) -> (r: XmlReader<'a>)
    ensures
        r.source@ == xml@,
        r.count@ == 0,
        !r.trim@,
{
    XmlReader {
        inner: quick_xml::Reader::from_str(xml),
        source: Ghost(xml@),
        count: Ghost(0),
        trim: Ghost(false),
    }
}

/// Calls `quick_xml::reader::Config::trim_text` on the configuration of a
/// reader that has read nothing yet: whether whitespace around text is
/// dropped.
#[verifier::external_body]
fn set_trim_text(reader: &mut XmlReader, trim: bool)
    requires
        old(reader).count@ == 0,
    ensures
        final(reader).trim@ == trim,
        final(reader).source == old(reader).source,
        final(reader).count == old(reader).count,
{
    reader.inner.config_mut().trim_text(trim);
}

/// Calls `quick_xml::Reader::read_event` and converts the event. What it
/// returns is the reader's next event over its source, and the number of
/// events read grows by one; the event itself is named, not spelled out.
#[verifier::external_body]
fn read_next(reader: &mut XmlReader) -> (e: XmlEvent)
    requires
        old(reader).trim@,
    ensures
        e@ == xml_event(old(reader).source@, old(reader).count@),
        final(reader).source == old(reader).source,
        final(reader).count@ == old(reader).count@ + 1,
        final(reader).trim == old(reader).trim,
{
    match reader.inner.read_event() {
        Ok(Event::Start(t)) => XmlEvent::Start(t.name().0.to_owned()),
        Ok(Event::End(t)) => XmlEvent::End(t.name().0.to_owned()),
        Ok(Event::Empty(t)) => XmlEvent::Empty(t.name().0.to_owned()),
        Ok(Event::Text(t)) => XmlEvent::Text(t.xml10_content().into_owned()),
        Ok(Event::CData(t)) => XmlEvent::CData(t.xml10_content().into_owned()),
        Ok(Event::GeneralRef(t)) => XmlEvent::Reference(t.into_inner().into_owned()),
        Ok(Event::Eof) => XmlEvent::Eof,
        Ok(_) => XmlEvent::Other,
        Err(_) => XmlEvent::Error,
    }
}

/// Calls `quick_xml::Reader::buffer_position`: the byte offset the reader
/// has reached.
#[verifier::external_body]
fn position_of(reader: &XmlReader) -> (p: u64)
    requires
        reader.trim@,
    ensures
        p == xml_offset(reader.source@, reader.count@),
{
    reader.inner.buffer_position()
}

/// Calls `quick_xml::escape::unescape`: replaces the predefined entity
/// references and character references of `raw`; `None` where it reports
/// an error (such as an unknown entity).
#[verifier::external_body]
pub(crate) fn unescape(raw: &str) -> (r: Option<String>)
    ensures
        opt_view(r) == xml_unescaped(raw@),
{
    match quick_xml::escape::unescape(raw) {
        Ok(s) => Some(s.into_owned()),
        Err(_) => None,
    }
}

impl<'a> XmlReader<'a> {
    /// The document being read.
    pub closed spec fn source(&self) -> Seq<char> {
        self.source@
    }

    /// How many events have been read.
    pub closed spec fn count(&self) -> nat {
        self.count@
    }

    /// Whether whitespace around text is dropped.
    pub closed spec fn trims(&self) -> bool {
        self.trim@
    }

    /// A reader at the start of `xml` that drops whitespace around text.
    pub fn new(xml: &'a str) -> (r: Self)
        ensures
            r.source() == xml@,
            r.count() == 0,
            r.trims(),
    {
        let mut r = reader_from_str(xml);
        set_trim_text(&mut r, true);
        r
    }

    /// The next event.
    pub fn next_event(&mut self) -> (e: XmlEvent)
        requires
            old(self).trims(),
        ensures
            e@ == xml_event(old(self).source(), old(self).count()),
            final(self).source() == old(self).source(),
            final(self).count() == old(self).count() + 1,
            final(self).trims(),
    {
        read_next(self)
    }

    /// The byte offset reached so far.
    pub fn position(&self) -> (p: u64)
        requires
            self.trims(),
        ensures
            p == xml_offset(self.source(), self.count()),
    {
        position_of(self)
    }
}

} // verus!
