//! Reading the text nodes of an XML document.

use quick_xml::events::Event;
use quick_xml::reader::Reader;
use vstd::prelude::*;

verus! {

/// The pull parser of `quick_xml`.  Nothing of its inside is visible here.
#[verifier::external_type_specification]
#[verifier::external_body]
#[verifier::reject_recursive_types(R)]
pub struct ExReader<R>(Reader<R>);

/// What a reader hands out in one step.
#[derive(Debug, PartialEq, Eq)]
pub enum XmlStep {
    /// A text node, unescaped.
    Text(String),
    /// Any other piece of the document.
    Markup,
    /// The end of the document.
    End,
    /// A fault: markup that is not well-formed, or text with a malformed
    /// escape.
    Fault,
}

/// The document is not well-formed XML.
#[derive(Debug, Clone, Copy, PartialEq, Eq, Structural)]
pub struct XmlFault;

/// What reading a document gives with a reader that trims white space: the
/// pieces handed out up to the end of the document or its first fault (the
/// content of each text node, and nothing for any other piece), and whether
/// it was a fault that ended the reading.
pub uninterp spec fn xml_reading(document: Seq<char>) -> (Seq<Option<Seq<char>>>, bool);

/// What a reader has yet to give: the pieces up to the end of its document
/// or the next fault, and whether it is a fault that comes after them.
pub uninterp spec fn xml_pending(reader: Reader<&[u8]>) -> (Seq<Option<Seq<char>>>, bool);

/// The pieces of a document up to its end or its first fault.
pub open spec fn xml_pieces(document: Seq<char>) -> Seq<Option<Seq<char>>> {
    xml_reading(document).0
}

/// Whether reading the document meets a fault before its end.
pub open spec fn xml_malformed(document: Seq<char>) -> bool {
    xml_reading(document).1
}

/// Calls `Reader::from_str` and, on the new reader, `Reader::trim_text(true)`.
///
/// Trusted: the new reader has the whole reading of the document yet to
/// give.  This takes the reading to depend on the characters of the document
/// alone, and the pieces to be finitely many.
#[verifier::external_body]
pub(crate) fn open_document<'a>(document: &'a str) -> (reader: Reader<&'a [u8]>)
    ensures
        xml_pending(reader) == xml_reading(document@),
{
    let mut reader = Reader::from_str(document);
    reader.trim_text(true);
    reader
}

/// Calls `Reader::read_event_into` and, on a text node, `BytesText::unescape`.
///
/// Trusted: the reader hands out its pending pieces one by one and in
/// order.  When none is pending it reports the end or a fault, whichever
/// was due; after the end it goes on to report the end.  An error of
/// either call is a fault.  Nothing is claimed of the reader after a fault.
#[verifier::external_body]
pub(crate) fn next_piece(reader: &mut Reader<&[u8]>, buffer: &mut Vec<u8>) -> (step: XmlStep)
    ensures
        match step {
            XmlStep::Text(text) => {
                &&& xml_pending(*old(reader)).0.len() > 0
                &&& xml_pending(*old(reader)).0[0] == Some(text@)
                &&& xml_pending(*final(reader)).0 == xml_pending(*old(reader)).0.drop_first()
                &&& xml_pending(*final(reader)).1 == xml_pending(*old(reader)).1
            },
            XmlStep::Markup => {
                &&& xml_pending(*old(reader)).0.len() > 0
                &&& xml_pending(*old(reader)).0[0] is None
                &&& xml_pending(*final(reader)).0 == xml_pending(*old(reader)).0.drop_first()
                &&& xml_pending(*final(reader)).1 == xml_pending(*old(reader)).1
            },
            XmlStep::End => {
                &&& xml_pending(*old(reader)).0.len() == 0
                &&& !xml_pending(*old(reader)).1
                &&& xml_pending(*final(reader)) == xml_pending(*old(reader))
            },
            XmlStep::Fault => {
                &&& xml_pending(*old(reader)).0.len() == 0
                &&& xml_pending(*old(reader)).1
            },
        },
{
    match reader.read_event_into(buffer) {
        Ok(Event::Text(text)) => match text.unescape() {
            Ok(content) => XmlStep::Text(content.to_string()),
            Err(_) => XmlStep::Fault,
        },
        Ok(Event::Eof) => XmlStep::End,
        Ok(_) => XmlStep::Markup,
        Err(_) => XmlStep::Fault,
    }
}

/// The text nodes among the pieces of a document, in order.
pub open spec fn texts_among(pieces: Seq<Option<Seq<char>>>) -> Seq<Seq<char>> {
    pieces.filter(|piece: Option<Seq<char>>| piece is Some).map_values(
        |piece: Option<Seq<char>>| piece->0,
    )
}

/// The text nodes of an XML document, in order, each trimmed of the white
/// space around it and unescaped.  A document that is not well-formed is
/// refused, whatever was read of it.
pub fn text_nodes(document: &str) -> (texts: Result<Vec<String>, XmlFault>)
    ensures
        match texts {
            Ok(texts) => !xml_malformed(document@) && texts.deep_view() == texts_among(
                xml_pieces(document@),
            ),
            Err(_) => xml_malformed(document@),
        },
{
    let mut reader = open_document(document);
    let mut buffer: Vec<u8> = Vec::new();
    let mut texts: Vec<String> = Vec::new();
    let mut faulty = false;
    let ghost all = xml_pieces(document@);
    let ghost mut read: int = 0;
    let ghost is_text = |piece: Option<Seq<char>>| piece is Some;
    let ghost content = |piece: Option<Seq<char>>| piece->0;
    proof {
        assert(all.skip(0) =~= all);
        assert(all.take(0).filter(is_text) =~= Seq::<Option<Seq<char>>>::empty()) by {
            all.take(0).lemma_filter_len(is_text);
        }
        assert(texts.deep_view() =~= all.take(0).filter(is_text).map_values(content));
    }
    loop
        invariant_except_break
            is_text == |piece: Option<Seq<char>>| piece is Some,
            content == |piece: Option<Seq<char>>| piece->0,
            all == xml_pieces(document@),
            0 <= read <= all.len(),
            !faulty,
            xml_pending(reader).0 == all.skip(read),
            xml_pending(reader).1 == xml_malformed(document@),
            texts.deep_view() == all.take(read).filter(is_text).map_values(content),
        ensures
            faulty == xml_malformed(document@),
            texts.deep_view() == texts_among(all),
        decreases all.len() - read,
    {
        let ghost before = texts.deep_view();
        let step = next_piece(&mut reader, &mut buffer);
        proof {
            if read < all.len() {
                all.lemma_take_succ_push(read);
                all.take(read).lemma_filter_push(all[read], is_text);
                all.take(read).filter(is_text).lemma_push_map_commute(content, all[read]);
                assert(all.skip(read).drop_first() =~= all.skip(read + 1));
                assert(all.skip(read)[0] == all[read]);
            }
        }
        match step {
            XmlStep::Text(text) => {
                texts.push(text);
                proof {
                    assert(texts.deep_view() =~= before.push(all[read]->0));
                    read = read + 1;
                }
            },
            XmlStep::Markup => {
                proof {
                    read = read + 1;
                }
            },
            XmlStep::End => {
                proof {
                    all.lemma_take_len();
                }
                break ;
            },
            XmlStep::Fault => {
                proof {
                    all.lemma_take_len();
                }
                faulty = true;
                break ;
            },
        }
        buffer.clear();
    }
    if faulty {
        Err(XmlFault)
    } else {
        Ok(texts)
    }
}

} // verus!
