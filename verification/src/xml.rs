//! The XML event stream, read with `quick_xml`.
//!
//! [`read_tokens`] runs a `quick_xml::Reader` over a document and records, for
//! every start tag, end tag and text node, what the parsers and writers of this
//! crate need: the raw tag name, the decoded and unescaped text, and the byte
//! positions that the reader reports. Everything that decides anything about a
//! document works on that token list and is verified; the reader is trusted.
//!
//! The reader is deterministic: the event that its `i`-th read returns, and the
//! byte position it has reached after `i` reads, depend on the document alone.
//! [`xml_event`] and [`xml_position`] name those values, and [`xml_tokens`]
//! states the whole token list in terms of them.

use vstd::prelude::*;
use vstd::utf8::{decode_utf8, valid_utf8};

use quick_xml::events::Event;
use quick_xml::Reader;

verus! {

#[verifier::external_type_specification]
#[verifier::external_body]
#[verifier::reject_recursive_types(R)]
pub struct ExReader<R>(Reader<R>);

/// One read of the reader, as plain values: the raw qualified name of a start or
/// end tag, the raw (still escaped) bytes of a text node, or the description of a
/// syntax error. Empty elements, CDATA, comments, declarations, processing
/// instructions and doctypes are `Other`.
pub enum XmlEvent {
    Start { name: Seq<u8> },
    End { name: Seq<u8> },
    Text { raw: Seq<u8> },
    Eof,
    Failed { message: Seq<char> },
    Other,
}

/// Executable form of [`XmlEvent`].
pub enum RawEvent {
    Start { name: Vec<u8> },
    End { name: Vec<u8> },
    Text { raw: Vec<u8> },
    Eof,
    Failed { message: String },
    Other,
}

impl View for RawEvent {
    type V = XmlEvent;

    open spec fn view(&self) -> XmlEvent {
        match self {
            RawEvent::Start { name } => XmlEvent::Start { name: name@ },
            RawEvent::End { name } => XmlEvent::End { name: name@ },
            RawEvent::Text { raw } => XmlEvent::Text { raw: raw@ },
            RawEvent::Eof => XmlEvent::Eof,
            RawEvent::Failed { message } => XmlEvent::Failed { message: message@ },
            RawEvent::Other => XmlEvent::Other,
        }
    }
}

/// The event that the `index`-th call of `Reader::read_event` returns on a reader
/// made by `Reader::from_str(xml)`.
pub uninterp spec fn xml_event(xml: Seq<char>, index: nat) -> XmlEvent;

/// `Reader::buffer_position` of a reader made by `Reader::from_str(xml)` after
/// `reads` calls of `read_event`.
pub uninterp spec fn xml_position(xml: Seq<char>, reads: nat) -> usize;

/// What `quick_xml::escape::unescape` makes of `raw`: the text with its entity and
/// character references resolved, or `None` where it reports an error.
pub uninterp spec fn xml_unescape(raw: Seq<char>) -> Option<Seq<char>>;

/// A `quick_xml` reader over one document, with the document and the number of
/// reads made so far. The fields are private: a reader is only made by
/// [`XmlReader::new`] and only advanced by [`XmlReader::next_event`], which keeps
/// the ghost fields in step with the inner reader.
struct XmlReader<'a> {
    inner: Reader<&'a [u8]>,
    src: Ghost<Seq<char>>,
    reads: Ghost<nat>,
}

impl<'a> XmlReader<'a> {
    /// `Reader::from_str`: a reader at the start of `xml` that has made no read.
    #[verifier::external_body]
    fn new(xml: &'a str) -> (r: Self)
        ensures
            r.src@ == xml@,
            r.reads@ == 0,
    {
        XmlReader { inner: Reader::from_str(xml), src: Ghost(xml@), reads: Ghost(0) }
    }

    /// `Reader::read_event`: the next event, with its payload copied out. The
    /// result is the event the document yields at this read.
    #[verifier::external_body]
    fn next_event(&mut self) -> (e: RawEvent)
        ensures
            final(self).src == old(self).src,
            final(self).reads@ == old(self).reads@ + 1,
            e@ == xml_event(old(self).src@, old(self).reads@),
    {
        let e = match self.inner.read_event() {
            Ok(Event::Start(e)) => RawEvent::Start { name: e.name().as_ref().to_vec() },
            Ok(Event::End(e)) => RawEvent::End { name: e.name().as_ref().to_vec() },
            Ok(Event::Text(e)) => RawEvent::Text { raw: e.into_inner().into_owned() },
            Ok(Event::Eof) => RawEvent::Eof,
            Ok(_) => RawEvent::Other,
            Err(err) => RawEvent::Failed { message: err.to_string() },
        };
        self.reads = Ghost((self.reads@ + 1) as nat);
        e
    }

    /// `Reader::buffer_position`, as a `usize`.
    #[verifier::external_body]
    fn position(&self) -> (p: usize)
        ensures
            p == xml_position(self.src@, self.reads@),
    {
        self.inner.buffer_position() as usize
    }
}

/// `quick_xml::escape::unescape`: resolves the entity and character references
/// of `raw`; an error becomes `None`.
#[verifier::external_body]
fn unescape(raw: &str) -> (r: Option<String>)
    ensures
        r matches Some(s) ==> xml_unescape(raw@) == Some(s@),
        r is None ==> xml_unescape(raw@) is None,
{
    quick_xml::escape::unescape(raw).ok().map(|c| c.into_owned())
}

/// `std::str::from_utf8`: the characters that `bytes` encode, or `None` where
/// `bytes` is not valid UTF-8.
#[verifier::external_body]
fn utf8_decode(bytes: &[u8]) -> (r: Option<String>)
    ensures
        r is Some <==> valid_utf8(bytes@),
        r matches Some(s) ==> s@ == decode_utf8(bytes@),
{
    std::str::from_utf8(bytes).ok().map(|s| s.to_string())
}

/// What `String::from_utf8_lossy` makes of the given bytes.
pub uninterp spec fn lossy_utf8(bytes: Seq<u8>) -> Seq<char>;

/// `String::from_utf8_lossy`: a function of the bytes alone; valid UTF-8 decodes
/// to the characters it encodes (std documents that such input is returned as is).
#[verifier::external_body]
pub(crate) fn utf8_lossy(bytes: &[u8]) -> (s: String)
    ensures
        s@ == lossy_utf8(bytes@),
        valid_utf8(bytes@) ==> s@ == decode_utf8(bytes@),
{
    String::from_utf8_lossy(bytes).into_owned()
}

/// One step of an XML document as the parsers of this crate see it.
pub enum TokenView {
    Start { name: Seq<u8>, after: usize },
    End { name: Seq<u8>, before: usize },
    Text { text: Option<Seq<char>> },
    Eof,
    Error { message: Seq<char> },
}

/// Executable form of [`TokenView`].
#[derive(Debug)]
pub enum XmlToken {
    /// A start tag: its raw qualified name and the byte position right after it.
    Start { name: Vec<u8>, after: usize },
    /// An end tag: its raw qualified name and the byte position right before it.
    End { name: Vec<u8>, before: usize },
    /// A text node: its decoded and unescaped text, or `None` where the text is
    /// not valid UTF-8 or holds a reference that cannot be resolved.
    Text { text: Option<String> },
    /// The end of the document.
    Eof,
    /// A syntax error, with its description; reading stops there.
    Error { message: String },
}

impl View for XmlToken {
    type V = TokenView;

    open spec fn view(&self) -> TokenView {
        match self {
            XmlToken::Start { name, after } => TokenView::Start { name: name@, after: *after },
            XmlToken::End { name, before } => TokenView::End { name: name@, before: *before },
            XmlToken::Text { text } => TokenView::Text {
                text: match text {
                    Some(t) => Some(t@),
                    None => None,
                },
            },
            XmlToken::Eof => TokenView::Eof,
            XmlToken::Error { message } => TokenView::Error { message: message@ },
        }
    }
}

/// The views of a list of tokens.
pub open spec fn token_views(tokens: Seq<XmlToken>) -> Seq<TokenView> {
    tokens.map_values(|t: XmlToken| t@)
}

/// The text of a text node whose raw bytes are `raw`.
pub open spec fn text_of(raw: Seq<u8>) -> Option<Seq<char>> {
    if valid_utf8(raw) {
        xml_unescape(decode_utf8(raw))
    } else {
        None
    }
}

/// The message of the token that ends a stream that did not reach its end.
pub open spec fn stall_message() -> Seq<char> {
    "reader did not reach the end of input"@
}

/// The tokens for read `i` (none for an `Other` event).
pub open spec fn tokens_at(xml: Seq<char>, i: nat) -> Seq<TokenView> {
    match xml_event(xml, i) {
        XmlEvent::Start { name } => seq![TokenView::Start { name, after: xml_position(xml, i + 1) }],
        XmlEvent::End { name } => seq![TokenView::End { name, before: xml_position(xml, i) }],
        XmlEvent::Text { raw } => seq![TokenView::Text { text: text_of(raw) }],
        XmlEvent::Eof => seq![TokenView::Eof],
        XmlEvent::Failed { message } => seq![TokenView::Error { message }],
        XmlEvent::Other => Seq::empty(),
    }
}

/// The tokens from read `i` on, with at most `fuel` further reads after it.
pub open spec fn tokens_from(xml: Seq<char>, i: nat, fuel: nat) -> Seq<TokenView>
    decreases fuel,
{
    match xml_event(xml, i) {
        XmlEvent::Eof => tokens_at(xml, i),
        XmlEvent::Failed { .. } => tokens_at(xml, i),
        _ => if fuel == 0 {
            tokens_at(xml, i) + seq![TokenView::Error { message: stall_message() }]
        } else {
            tokens_at(xml, i) + tokens_from(xml, i + 1, (fuel - 1) as nat)
        },
    }
}

/// The token list of a document: the reader's events from the first read until
/// the end of the document or the first error. Every event takes at least one
/// character of input, so the end comes within one read more than the document
/// has characters; a stream cut off there would end in an `Error` token.
pub open spec fn xml_tokens(xml: Seq<char>) -> Seq<TokenView> {
    tokens_from(xml, 0, xml.len())
}

/// Reads `xml` with `quick_xml` until the end of the document or the first error.
pub fn read_tokens(xml: &str) -> (tokens: Vec<XmlToken>)
    ensures
        token_views(tokens@) == xml_tokens(xml@),
{
    let mut reader = XmlReader::new(xml);
    let mut tokens: Vec<XmlToken> = Vec::new();
    let mut fuel: usize = xml.unicode_len();
    assert(token_views(tokens@) =~= Seq::<TokenView>::empty());
    assert(Seq::<TokenView>::empty() + tokens_from(xml@, 0, fuel as nat) =~= tokens_from(xml@, 0, fuel as nat));
    loop
        invariant
            reader.src@ == xml@,
            token_views(tokens@) + tokens_from(xml@, reader.reads@, fuel as nat) == xml_tokens(xml@),
        decreases fuel,
    {
        let ghost i = reader.reads@;
        let ghost prev = token_views(tokens@);
        let before = reader.position();
        let ev = reader.next_event();
        let after = reader.position();
        let last = match ev {
            RawEvent::Start { name } => {
                tokens.push(XmlToken::Start { name, after });
                false
            },
            RawEvent::End { name } => {
                tokens.push(XmlToken::End { name, before });
                false
            },
            RawEvent::Text { raw } => {
                let text = match utf8_decode(raw.as_slice()) {
                    Some(s) => unescape(s.as_str()),
                    None => None,
                };
                tokens.push(XmlToken::Text { text });
                false
            },
            RawEvent::Eof => {
                tokens.push(XmlToken::Eof);
                true
            },
            RawEvent::Failed { message } => {
                tokens.push(XmlToken::Error { message });
                true
            },
            RawEvent::Other => false,
        };
        assert(token_views(tokens@) =~= prev + tokens_at(xml@, i));
        if last {
            return tokens;
        }
        if fuel == 0 {
            tokens.push(XmlToken::Error { message: String::from_str("reader did not reach the end of input") });
            proof {
                reveal_strlit("reader did not reach the end of input");
            }
            assert(token_views(tokens@) =~= prev + tokens_from(xml@, i, 0));
            return tokens;
        }
        fuel = fuel - 1;
        assert(prev + tokens_from(xml@, i, (fuel + 1) as nat) =~= token_views(tokens@) + tokens_from(xml@, reader.reads@, fuel as nat));
    }
}

} // verus!
