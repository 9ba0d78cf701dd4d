//! Structural events of a tagged-markup byte buffer.
//!
//! The markup event stream is the one external capability of the parser: a
//! byte buffer yields a forward-only sequence of structural events.  The
//! stream is produced by the `xml` crate behind a trusted wrapper; every
//! event is converted to the plain [`Event`] value that the verified
//! parsing functions consume.

use vstd::prelude::*;

verus! {

/// One structural event of a markup document.
#[derive(Debug)]
pub enum Event {
    /// An element starts; carries its tag name and its attributes as
    /// name/value pairs, in document order.
    Start { name: String, attrs: Vec<(String, String)> },
    /// An element ends; carries its tag name.
    End { name: String },
    /// The document ended; the last event of a well-formed document.
    DocEnd,
    /// Any other event (text, comments, processing instructions, the
    /// document start); the parser ignores these.
    Other,
    /// The stream is not well-formed markup from this point on; no further
    /// events follow.
    Malformed,
}

/// The value of the last attribute with the given name, if any.
///
/// Well-formed markup never repeats an attribute name on one element; if a
/// repetition is present in the raw list, the later occurrence wins.
pub open spec fn attr_of(attrs: Seq<(String, String)>, key: Seq<char>) -> Option<Seq<char>>
    decreases attrs.len(),
{
    if attrs.len() == 0 {
        None
    } else if attrs.last().0@ == key {
        Some(attrs.last().1@)
    } else {
        attr_of(attrs.drop_last(), key)
    }
}

/// String comparison by contents.
pub fn str_eq(a: &str, b: &str) -> (r: bool)
    ensures
        r == (a@ == b@),
{
    let sa = String::from_str(a);
    let sb = String::from_str(b);
    sa == sb
}

/// Look an attribute up by name, as the attribute extractor of the loader
/// does for each required attribute of an element.
pub fn attr_value<'a>(attrs: &'a Vec<(String, String)>, key: &str) -> (r: Option<&'a String>)
    ensures
        match r {
            Some(v) => attr_of(attrs@, key@) == Some(v@),
            None => attr_of(attrs@, key@) is None,
        },
{
    let mut i: usize = attrs.len();
    proof {
        assert(attrs@.take(i as int) =~= attrs@);
    }
    while i > 0
        invariant
            i <= attrs@.len(),
            attr_of(attrs@, key@) == attr_of(attrs@.take(i as int), key@),
        decreases i,
    {
        let pair = &attrs[i - 1];
        if str_eq(pair.0.as_str(), key) {
            proof {
                assert(attrs@.take(i as int).last() == attrs@[i - 1]);
            }
            return Some(&pair.1);
        }
        proof {
            assert(attrs@.take(i as int).drop_last() =~= attrs@.take(i - 1));
            assert(attrs@.take(i as int).last() == attrs@[i - 1]);
        }
        i = i - 1;
    }
    proof {
        assert(attrs@.take(0) =~= Seq::<(String, String)>::empty());
    }
    None
}

/// The structural events of a byte buffer; a function of the bytes alone.
pub uninterp spec fn xml_events_of(bytes: Seq<u8>) -> Seq<Event>;

/// Relies on `xml::EventReader` (crate `xml-rs`): parsing a byte slice is
/// deterministic, each structural event is converted variant for variant,
/// and reading stops at the document end or at the first error.
#[verifier::external_body]
pub fn read_xml_events(bytes: &Vec<u8>) -> (r: Vec<Event>)
    ensures
        r@ == xml_events_of(bytes@),
{
    let mut out: Vec<Event> = Vec::new();
    let mut parser = xml::EventReader::new(bytes.as_slice());
    loop {
        match parser.next() {
            Ok(xml::reader::XmlEvent::StartElement { name, attributes, .. }) => {
                let attrs = attributes.into_iter().map(|a| (a.name.local_name, a.value)).collect();
                out.push(Event::Start { name: name.local_name, attrs });
            }
            Ok(xml::reader::XmlEvent::EndElement { name }) => out.push(Event::End { name: name.local_name }),
            Ok(xml::reader::XmlEvent::EndDocument) => { out.push(Event::DocEnd); return out; }
            Ok(_) => out.push(Event::Other),
            Err(_) => { out.push(Event::Malformed); return out; }
        }
    }
}

} // verus!
