//! Writing XML through an event writer that indents its output.

use vstd::prelude::*;
use xml::writer::{EmitterConfig, EventWriter, XmlEvent};

verus! {

/// `xml::writer::EventWriter`, of which nothing is seen but what the
/// functions below say.
#[verifier::external_type_specification]
#[verifier::external_body]
#[verifier::reject_recursive_types(W)]
pub struct ExEventWriter<W>(EventWriter<W>);

/// One event of a document: an element opens, text stands in it, the
/// innermost open element closes.
pub enum Markup {
    Open(Seq<char>, Seq<(Seq<char>, Seq<char>)>),
    Text(Seq<char>),
    Close,
}

/// The events that a writer has taken so far, oldest first.
pub uninterp spec fn written(w: EventWriter<Vec<u8>>) -> Seq<Markup>;

/// The bytes that an indenting writer holds after it has taken `events`.
pub uninterp spec fn rendering(events: Seq<Markup>) -> Seq<u8>;

/// How many elements `events` leave open.
pub open spec fn open_depth(events: Seq<Markup>) -> int
    decreases events.len(),
{
    if events.len() == 0 {
        0
    } else {
        open_depth(events.drop_last()) + match events.last() {
            Markup::Open(_, _) => 1int,
            Markup::Text(_) => 0int,
            Markup::Close => -1int,
        }
    }
}

/// Attribute names and values as plain text.
pub open spec fn attribute_texts(attributes: Seq<(&str, &str)>) -> Seq<(Seq<char>, Seq<char>)> {
    Seq::new(attributes.len(), |i: int| (attributes[i].0@, attributes[i].1@))
}

/// `EmitterConfig::new().perform_indent(true).create_writer(..)` on an empty
/// byte vector: a writer that has taken no event.
#[verifier::external_body]
pub(crate) fn indenting_writer() -> (w: EventWriter<Vec<u8>>)
    ensures
        written(w) == Seq::<Markup>::empty(),
{
    EmitterConfig::new().perform_indent(true).create_writer(Vec::new())
}

/// `EventWriter::write` with a start-element event that carries the given
/// attributes in order. On a byte vector this event is always taken.
#[verifier::external_body]
pub(crate) fn write_open(w: &mut EventWriter<Vec<u8>>, name: &str, attributes: &Vec<(&str, &str)>)
    ensures
        written(*final(w)) == written(*old(w)).push(
            Markup::Open(name@, attribute_texts(attributes@)),
        ),
{
    let mut event = XmlEvent::start_element(name);
    for a in attributes {
        event = event.attr(a.0, a.1);
    }
    w.write(event).unwrap();
}

/// `EventWriter::write` with a characters event. On a byte vector this
/// event is always taken.
#[verifier::external_body]
pub(crate) fn write_text(w: &mut EventWriter<Vec<u8>>, text: &str)
    ensures
        written(*final(w)) == written(*old(w)).push(Markup::Text(text@)),
{
    w.write(XmlEvent::characters(text)).unwrap();
}

/// `EventWriter::write` with an end-element event that names no element.
/// The writer takes it whenever an element is open.
#[verifier::external_body]
pub(crate) fn write_close(w: &mut EventWriter<Vec<u8>>)
    requires
        open_depth(written(*old(w))) > 0,
    ensures
        written(*final(w)) == written(*old(w)).push(Markup::Close),
{
    w.write(XmlEvent::end_element()).unwrap();
}

/// `EventWriter::into_inner`: the bytes written, which the events taken
/// determine.
#[verifier::external_body]
pub(crate) fn into_bytes(w: EventWriter<Vec<u8>>) -> (bytes: Vec<u8>)
    ensures
        bytes@ == rendering(written(w)),
{
    w.into_inner()
}

/// One more event changes the depth by what that event does.
pub proof fn lemma_depth_push(events: Seq<Markup>, event: Markup)
    ensures
        open_depth(events.push(event)) == open_depth(events) + match event {
            Markup::Open(_, _) => 1int,
            Markup::Text(_) => 0int,
            Markup::Close => -1int,
        },
{
    assert(events.push(event).drop_last() =~= events);
}

/// An element that holds text and nothing else.
pub open spec fn simple_element(name: Seq<char>, value: Seq<char>) -> Seq<Markup> {
    seq![Markup::Open(name, Seq::empty()), Markup::Text(value), Markup::Close]
}

/// Opens an element.
pub(crate) fn open_element(w: &mut EventWriter<Vec<u8>>, name: &str, attributes: &Vec<(&str, &str)>)
    ensures
        written(*final(w)) == written(*old(w)).push(
            Markup::Open(name@, attribute_texts(attributes@)),
        ),
        open_depth(written(*final(w))) == open_depth(written(*old(w))) + 1,
{
    proof {
        lemma_depth_push(written(*w), Markup::Open(name@, attribute_texts(attributes@)));
    }
    write_open(w, name, attributes);
}

/// An element with its attributes and what stands in it.
pub open spec fn element(
    name: Seq<char>,
    attributes: Seq<(Seq<char>, Seq<char>)>,
    body: Seq<Markup>,
) -> Seq<Markup> {
    seq![Markup::Open(name, attributes)] + body + seq![Markup::Close]
}

/// Opens an element that has no attribute.
pub(crate) fn open_plain(w: &mut EventWriter<Vec<u8>>, name: &str)
    ensures
        written(*final(w)) == written(*old(w)).push(Markup::Open(name@, Seq::empty())),
        open_depth(written(*final(w))) == open_depth(written(*old(w))) + 1,
{
    let none: Vec<(&str, &str)> = Vec::new();
    assert(attribute_texts(none@) =~= Seq::empty());
    open_element(w, name, &none);
}

/// Opens an element that has one attribute.
pub(crate) fn open_with(w: &mut EventWriter<Vec<u8>>, name: &str, key: &str, value: &str)
    ensures
        written(*final(w)) == written(*old(w)).push(Markup::Open(name@, seq![(key@, value@)])),
        open_depth(written(*final(w))) == open_depth(written(*old(w))) + 1,
{
    let mut one: Vec<(&str, &str)> = Vec::new();
    one.push((key, value));
    assert(attribute_texts(one@) =~= seq![(key@, value@)]);
    open_element(w, name, &one);
}

/// Opens an element that has two attributes.
pub(crate) fn open_with2(
    w: &mut EventWriter<Vec<u8>>,
    name: &str,
    key1: &str,
    value1: &str,
    key2: &str,
    value2: &str,
)
    ensures
        written(*final(w)) == written(*old(w)).push(
            Markup::Open(name@, seq![(key1@, value1@), (key2@, value2@)]),
        ),
        open_depth(written(*final(w))) == open_depth(written(*old(w))) + 1,
{
    let mut two: Vec<(&str, &str)> = Vec::new();
    two.push((key1, value1));
    two.push((key2, value2));
    assert(attribute_texts(two@) =~= seq![(key1@, value1@), (key2@, value2@)]);
    open_element(w, name, &two);
}

/// Opens an element that has three attributes.
pub(crate) fn open_with3(
    w: &mut EventWriter<Vec<u8>>,
    name: &str,
    key1: &str,
    value1: &str,
    key2: &str,
    value2: &str,
    key3: &str,
    value3: &str,
)
    ensures
        written(*final(w)) == written(*old(w)).push(
            Markup::Open(name@, seq![(key1@, value1@), (key2@, value2@), (key3@, value3@)]),
        ),
        open_depth(written(*final(w))) == open_depth(written(*old(w))) + 1,
{
    let mut three: Vec<(&str, &str)> = Vec::new();
    three.push((key1, value1));
    three.push((key2, value2));
    three.push((key3, value3));
    assert(attribute_texts(three@) =~= seq![
        (key1@, value1@),
        (key2@, value2@),
        (key3@, value3@),
    ]);
    open_element(w, name, &three);
}

/// Writes text into the open element.
pub(crate) fn text(w: &mut EventWriter<Vec<u8>>, value: &str)
    ensures
        written(*final(w)) == written(*old(w)).push(Markup::Text(value@)),
        open_depth(written(*final(w))) == open_depth(written(*old(w))),
{
    proof {
        lemma_depth_push(written(*w), Markup::Text(value@));
    }
    write_text(w, value);
}

/// Closes the innermost open element.
pub(crate) fn close_element(w: &mut EventWriter<Vec<u8>>)
    requires
        open_depth(written(*old(w))) > 0,
    ensures
        written(*final(w)) == written(*old(w)).push(Markup::Close),
        open_depth(written(*final(w))) == open_depth(written(*old(w))) - 1,
{
    proof {
        lemma_depth_push(written(*w), Markup::Close);
    }
    write_close(w);
}

/// Writes an element that holds `value` as text.
pub(crate) fn write_simple(w: &mut EventWriter<Vec<u8>>, name: &str, value: &str)
    requires
        open_depth(written(*old(w))) >= 0,
    ensures
        written(*final(w)) == written(*old(w)) + simple_element(name@, value@),
        open_depth(written(*final(w))) == open_depth(written(*old(w))),
{
    open_plain(w, name);
    text(w, value);
    close_element(w);
    assert(written(*w) =~= written(*old(w)) + simple_element(name@, value@));
}

} // verus!
