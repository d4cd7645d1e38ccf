use quick_xml::events::{BytesEnd, BytesRef, BytesStart, Event};
use quick_xml::reader::Reader;
use vstd::prelude::*;

use crate::document::ParseError;
use crate::odt::{MarkupEvent, MarkupEventModel};
use crate::text::char_string;

verus! {

// ---------------------------------------------------------------------------
// The markup reader, from the quick_xml crate.
//
// The reader turns the XML string into a forward-only event stream; what
// it yields is a function of the string alone, so the raw stream gets a
// name, promised by the one scanning function at the top; the small
// steps beneath it convert single events to plain values, verbatim.
// Which elements and attributes matter — the container format of the
// external interface — is decided downstream, in verified code, as is
// everything after it: entity policy, style resolution, structural
// reconstruction.
// ---------------------------------------------------------------------------

/// One raw markup event, its payloads as plain values and nothing
/// selected yet: an element opens (`empty` for a self-closed one,
/// `attrs` `None` when its attribute list cannot be parsed) or closes, a
/// text run arrives, or a general reference does — numeric ones already
/// resolved to their character, named ones left for the entity policy.
/// `position` is the byte offset reached after the event, for error
/// reports.
#[derive(Debug, PartialEq)]
pub enum RawEvent {
    Start { name: String, attrs: Option<Vec<(String, String)>>, empty: bool, position: u64 },
    End { name: String },
    Text(String),
    CharRef(char),
    NamedRef { name: String, position: u64 },
}

/// The mathematical shape of a [`RawEvent`].
pub enum RawEventModel {
    Start {
        name: Seq<char>,
        attrs: Option<Seq<(Seq<char>, Seq<char>)>>,
        empty: bool,
        position: int,
    },
    End { name: Seq<char> },
    Text(Seq<char>),
    CharRef(char),
    NamedRef { name: Seq<char>, position: int },
}

impl DeepView for RawEvent {
    type V = RawEventModel;

    open spec fn deep_view(&self) -> RawEventModel {
        match self {
            RawEvent::Start { name, attrs, empty, position } => RawEventModel::Start {
                name: name@,
                attrs: attrs.deep_view(),
                empty: *empty,
                position: *position as int,
            },
            RawEvent::End { name } => RawEventModel::End { name: name@ },
            RawEvent::Text(t) => RawEventModel::Text(t@),
            RawEvent::CharRef(c) => RawEventModel::CharRef(*c),
            RawEvent::NamedRef { name, position } => RawEventModel::NamedRef {
                name: name@,
                position: *position as int,
            },
        }
    }
}

/// What scanning an XML string yields, as a function of the string
/// alone: the raw event stream, or the byte offset at which the markup
/// is malformed.
pub uninterp spec fn raw_events_of(xml: Seq<char>) -> Result<Seq<RawEventModel>, int>;

#[verifier::external_type_specification]
#[verifier::external_body]
#[verifier::reject_recursive_types(R)]
pub struct ExReader<R>(Reader<R>);

#[verifier::external_type_specification]
#[verifier::external_body]
pub struct ExBytesStart<'a>(BytesStart<'a>);

#[verifier::external_type_specification]
#[verifier::external_body]
pub struct ExBytesEnd<'a>(BytesEnd<'a>);

#[verifier::external_type_specification]
#[verifier::external_body]
pub struct ExBytesRef<'a>(BytesRef<'a>);

#[verifier::external_type_specification]
#[verifier::external_body]
pub struct ExEvent<'a>(Event<'a>);

/// Relies on `quick_xml::events::BytesStart::attributes` (the element's
/// attribute list in document order) and
/// `quick_xml::events::attributes::Attribute::unescape_value` (the value
/// with references resolved, an error on a bad one): every attribute as
/// a name–value pair, `None` when the list is malformed or a value does
/// not unescape.
#[verifier::external_body]
fn raw_attrs(e: &BytesStart) -> Option<Vec<(String, String)>> {
    let mut out: Vec<(String, String)> = Vec::new();
    for a in e.attributes() {
        match a {
            Ok(a) => match a.unescape_value() {
                Ok(v) => out.push((a.key.0.to_string(), v.to_string())),
                Err(_) => return None,
            },
            Err(_) => return None,
        }
    }
    Some(out)
}

/// Relies on `quick_xml::events::BytesStart::name`: an opening element,
/// verbatim, with its attributes read out as plain values.
#[verifier::external_body]
fn raw_open(e: &BytesStart, empty: bool, position: u64) -> RawEvent {
    RawEvent::Start { name: e.name().0.to_string(), attrs: raw_attrs(e), empty, position }
}

/// Relies on `quick_xml::events::BytesEnd::name`: a closing element,
/// verbatim.
#[verifier::external_body]
fn raw_close(e: &BytesEnd) -> RawEvent {
    RawEvent::End { name: e.name().0.to_string() }
}

/// Relies on `quick_xml::events::BytesRef::resolve_char_ref` (the
/// character of a numeric reference, `None` for a named one, an error on
/// a bad number) and the `AsRef<str>` view of the reference's name.
#[verifier::external_body]
fn raw_ref(r: &BytesRef, pos: u64) -> Result<RawEvent, u64> {
    match r.resolve_char_ref() {
        Err(_) => Err(pos),
        Ok(Some(c)) => Ok(RawEvent::CharRef(c)),
        Ok(None) => Ok(RawEvent::NamedRef { name: r.as_ref().to_string(), position: pos }),
    }
}

/// Tells the event categories apart, one arm each: `Ok(None)` at the
/// end of the stream, `Ok(Some(None))` for a category with no content
/// (declaration, comment, processing instruction, doctype, CDATA); in
/// this quick_xml version general references arrive as their own
/// events, so text payloads (read through their `AsRef<str>` view) are
/// literal.
#[verifier::external_body]
fn raw_event<'a>(ev: Event<'a>, pos: u64) -> Result<Option<Option<RawEvent>>, u64> {
    match ev {
        Event::Eof => Ok(None),
        Event::Start(e) => Ok(Some(Some(raw_open(&e, false, pos)))),
        Event::Empty(e) => Ok(Some(Some(raw_open(&e, true, pos)))),
        Event::End(e) => Ok(Some(Some(raw_close(&e)))),
        Event::Text(t) => Ok(Some(Some(RawEvent::Text(t.as_ref().to_string())))),
        Event::GeneralRef(r) => raw_ref(&r, pos).map(Some).map(Some),
        _ => Ok(Some(None)),
    }
}

/// Relies on `quick_xml::reader::Reader::read_event` (the next event of
/// the stream, an error on malformed markup) and
/// `quick_xml::reader::Reader::buffer_position` for offsets.
#[verifier::external_body]
fn scan_step<'a>(reader: &mut Reader<&'a [u8]>) -> Result<Option<Option<RawEvent>>, u64> {
    let ev = reader.read_event();
    let pos = reader.buffer_position();
    match ev {
        Err(_) => Err(pos),
        Ok(e) => raw_event(e, pos),
    }
}

/// Relies on `quick_xml::reader::Reader::from_str` and the scan steps
/// above: walks the whole stream, keeping every raw event in order.
/// The stream is a function of the string alone, named by
/// [`raw_events_of`].
#[verifier::external_body]
fn scan_raw(xml: &str) -> (r: Result<Vec<RawEvent>, u64>)
    ensures
        match r {
            Ok(v) => raw_events_of(xml@) == Ok::<Seq<RawEventModel>, int>(v.deep_view()),
            Err(p) => raw_events_of(xml@) == Err::<Seq<RawEventModel>, int>(p as int),
        },
{
    let mut reader = Reader::from_str(xml);
    let mut out: Vec<RawEvent> = Vec::new();
    loop {
        match scan_step(&mut reader) {
            Err(p) => return Err(p),
            Ok(None) => return Ok(out),
            Ok(Some(Some(ev))) => out.push(ev),
            Ok(Some(None)) => {},
        }
    }
}

// ---------------------------------------------------------------------------
// Selection and entity policy, verified.
// ---------------------------------------------------------------------------

/// The first attribute with the given name, if any — the order the raw
/// attribute list keeps is document order.
pub open spec fn attr_of(attrs: Seq<(Seq<char>, Seq<char>)>, name: Seq<char>) -> Option<Seq<char>>
    decreases attrs.len(),
{
    if attrs.len() == 0 {
        None
    } else if attrs[0].0 == name {
        Some(attrs[0].1)
    } else {
        attr_of(attrs.drop_first(), name)
    }
}

/// Finds the first attribute with the given name.
fn attrs_get(attrs: &Vec<(String, String)>, name: &String) -> (r: Option<String>)
    ensures
        match r {
            Some(v) => attr_of(attrs.deep_view(), name@) == Some(v@),
            None => attr_of(attrs.deep_view(), name@) is None,
        },
{
    let ghost av = attrs.deep_view();
    proof {
        assert(av.skip(0) =~= av);
    }
    let mut i: usize = 0;
    while i < attrs.len()
        invariant
            i <= attrs.len(),
            av == attrs.deep_view(),
            av.len() == attrs.len(),
            attr_of(av, name@) == attr_of(av.skip(i as int), name@),
        decreases attrs.len() - i,
    {
        proof {
            assert(av.skip(i as int)[0] == av[i as int]);
        }
        if attrs[i].0 == *name {
            return Some(attrs[i].1.clone());
        }
        proof {
            assert(av.skip(i as int).drop_first() =~= av.skip(i + 1));
        }
        i = i + 1;
    }
    proof {
        assert(av.skip(attrs.len() as int).len() == 0);
    }
    None
}

/// The five predefined XML entities and their text.
pub open spec fn entity_text(name: Seq<char>) -> Option<Seq<char>> {
    if name == "amp"@ {
        Some("&"@)
    } else if name == "lt"@ {
        Some("<"@)
    } else if name == "gt"@ {
        Some(">"@)
    } else if name == "quot"@ {
        Some("\""@)
    } else if name == "apos"@ {
        Some("'"@)
    } else {
        None
    }
}

/// Resolves a named entity reference to its text, for the five
/// predefined XML entities.
fn named_entity(name: &String) -> (r: Option<String>)
    ensures
        match r {
            Some(t) => entity_text(name@) == Some(t@),
            None => entity_text(name@) is None,
        },
{
    let amp = String::from_str("amp");
    let lt = String::from_str("lt");
    let gt = String::from_str("gt");
    let quot = String::from_str("quot");
    let apos = String::from_str("apos");
    if *name == amp {
        Some(String::from_str("&"))
    } else if *name == lt {
        Some(String::from_str("<"))
    } else if *name == gt {
        Some(String::from_str(">"))
    } else if *name == quot {
        Some(String::from_str("\""))
    } else if *name == apos {
        Some(String::from_str("'"))
    } else {
        None
    }
}

/// The selection of one raw event: `style:style` opening as a real
/// element starts a style definition, a self-closed
/// `style:paragraph-properties` carries alignment and break-before, a
/// `text:p` opening either way starts a paragraph and its closing ends
/// one; everything else is skipped.  A selected element whose attribute
/// list is malformed is a markup error at its offset.  A text run of
/// exactly one line feed is a pretty-printing artifact of the source
/// markup and is skipped; a character reference is user content and
/// becomes its one-character text, a named reference the text of a
/// predefined entity — an unknown name is malformed markup at the
/// reference's offset.
pub open spec fn select_event(e: RawEventModel) -> Result<Option<MarkupEventModel>, int> {
    match e {
        RawEventModel::Start { name, attrs, empty, position } => {
            if name == "style:style"@ && !empty {
                match attrs {
                    None => Err(position),
                    Some(al) => Ok(
                        Some(
                            MarkupEventModel::StyleStart {
                                name: attr_of(al, "style:name"@),
                                family: attr_of(al, "style:family"@),
                            },
                        ),
                    ),
                }
            } else if name == "text:p"@ {
                match attrs {
                    None => Err(position),
                    Some(al) => Ok(
                        Some(
                            MarkupEventModel::ParagraphStart {
                                style: attr_of(al, "text:style-name"@),
                            },
                        ),
                    ),
                }
            } else if name == "style:paragraph-properties"@ && empty {
                match attrs {
                    None => Err(position),
                    Some(al) => Ok(
                        Some(
                            MarkupEventModel::ParagraphProperties {
                                text_align: attr_of(al, "fo:text-align"@),
                                break_before: attr_of(al, "fo:break-before"@),
                            },
                        ),
                    ),
                }
            } else {
                Ok(None)
            }
        },
        RawEventModel::End { name } => {
            if name == "text:p"@ {
                Ok(Some(MarkupEventModel::ParagraphEnd))
            } else {
                Ok(None)
            }
        },
        RawEventModel::Text(t) => {
            if t == "\n"@ {
                Ok(None)
            } else {
                Ok(Some(MarkupEventModel::Text(t)))
            }
        },
        RawEventModel::CharRef(c) => Ok(Some(MarkupEventModel::Text(seq![c]))),
        RawEventModel::NamedRef { name, position } => match entity_text(name) {
            Some(t) => Ok(Some(MarkupEventModel::Text(t))),
            None => Err(position),
        },
    }
}

/// A whole raw stream selected in order; the first error wins.
pub open spec fn select_events(raws: Seq<RawEventModel>) -> Result<Seq<MarkupEventModel>, int>
    decreases raws.len(),
{
    if raws.len() == 0 {
        Ok(Seq::empty())
    } else {
        match select_event(raws[0]) {
            Err(p) => Err(p),
            Ok(head) => match select_events(raws.drop_first()) {
                Err(p) => Err(p),
                Ok(rest) => match head {
                    Some(m) => Ok(seq![m] + rest),
                    None => Ok(rest),
                },
            },
        }
    }
}

/// The markup events an XML string holds, as a function of the string
/// alone: its raw stream, selected and with references resolved, or the
/// byte offset of the first malformation.
pub open spec fn markup_events_of(xml: Seq<char>) -> Result<Seq<MarkupEventModel>, int> {
    match raw_events_of(xml) {
        Err(p) => Err(p),
        Ok(raws) => select_events(raws),
    }
}

/// Scans the markup stream, selects the events extraction cares about
/// and resolves their references: [`markup_events_of`] of the string,
/// with an unknown entity or a malformed selected element counting as
/// malformed markup at its offset.
pub fn read_events(xml: &str) -> (r: Result<Vec<MarkupEvent>, ParseError>)
    ensures
        match r {
            Ok(v) => markup_events_of(xml@) == Ok::<Seq<MarkupEventModel>, int>(v.deep_view()),
            Err(e) => match e {
                ParseError::Markup(p) => markup_events_of(xml@) == Err::<
                    Seq<MarkupEventModel>,
                    int,
                >(p as int),
                _ => false,
            },
        },
{
    let raws = match scan_raw(xml) {
        Ok(v) => v,
        Err(p) => {
            return Err(ParseError::Markup(p));
        },
    };
    let ghost sv = raws.deep_view();
    let ghost goal = select_events(sv);

    let style_style = String::from_str("style:style");
    let text_p = String::from_str("text:p");
    let paragraph_properties = String::from_str("style:paragraph-properties");
    let attr_style_name = String::from_str("style:name");
    let attr_style_family = String::from_str("style:family");
    let attr_text_style = String::from_str("text:style-name");
    let attr_text_align = String::from_str("fo:text-align");
    let attr_break_before = String::from_str("fo:break-before");
    let line_feed = String::from_str("\n");

    let mut events: Vec<MarkupEvent> = Vec::new();
    proof {
        assert(sv.skip(0) =~= sv);
        match select_events(sv) {
            Err(p) => {},
            Ok(rest) => {
                assert(events.deep_view() + rest =~= rest);
            },
        }
    }
    let mut i: usize = 0;
    while i < raws.len()
        invariant
            i <= raws.len(),
            sv == raws.deep_view(),
            sv.len() == raws.len(),
            goal == select_events(sv),
            markup_events_of(xml@) == select_events(sv),
            style_style@ == "style:style"@,
            text_p@ == "text:p"@,
            paragraph_properties@ == "style:paragraph-properties"@,
            attr_style_name@ == "style:name"@,
            attr_style_family@ == "style:family"@,
            attr_text_style@ == "text:style-name"@,
            attr_text_align@ == "fo:text-align"@,
            attr_break_before@ == "fo:break-before"@,
            line_feed@ == "\n"@,
            (match select_events(sv.skip(i as int)) {
                Err(p) => goal == Err::<Seq<MarkupEventModel>, int>(p),
                Ok(rest) => goal == Ok::<Seq<MarkupEventModel>, int>(events.deep_view() + rest),
            }),
        decreases raws.len() - i,
    {
        proof {
            assert(sv.skip(i as int)[0] == sv[i as int]);
            assert(sv.skip(i as int).drop_first() =~= sv.skip(i as int + 1));
            assert(sv[i as int] == raws[i as int].deep_view());
        }
        let selected: Option<MarkupEvent> = match &raws[i] {
            RawEvent::Start { name, attrs, empty, position } => {
                if *name == style_style && !*empty {
                    match attrs {
                        None => {
                            proof {
                                assert(select_event(sv[i as int]) == Err::<
                                    Option<MarkupEventModel>,
                                    int,
                                >(*position as int));
                            }
                            return Err(ParseError::Markup(*position));
                        },
                        Some(al) => {
                            let sn = attrs_get(al, &attr_style_name);
                            let sf = attrs_get(al, &attr_style_family);
                            Some(MarkupEvent::StyleStart { name: sn, family: sf })
                        },
                    }
                } else if *name == text_p {
                    match attrs {
                        None => {
                            proof {
                                assert(select_event(sv[i as int]) == Err::<
                                    Option<MarkupEventModel>,
                                    int,
                                >(*position as int));
                            }
                            return Err(ParseError::Markup(*position));
                        },
                        Some(al) => {
                            let st = attrs_get(al, &attr_text_style);
                            Some(MarkupEvent::ParagraphStart { style: st })
                        },
                    }
                } else if *name == paragraph_properties && *empty {
                    match attrs {
                        None => {
                            proof {
                                assert(select_event(sv[i as int]) == Err::<
                                    Option<MarkupEventModel>,
                                    int,
                                >(*position as int));
                            }
                            return Err(ParseError::Markup(*position));
                        },
                        Some(al) => {
                            let ta = attrs_get(al, &attr_text_align);
                            let bb = attrs_get(al, &attr_break_before);
                            Some(
                                MarkupEvent::ParagraphProperties {
                                    text_align: ta,
                                    break_before: bb,
                                },
                            )
                        },
                    }
                } else {
                    None
                }
            },
            RawEvent::End { name } => {
                if *name == text_p {
                    Some(MarkupEvent::ParagraphEnd)
                } else {
                    None
                }
            },
            RawEvent::Text(t) => {
                if *t == line_feed {
                    None
                } else {
                    Some(MarkupEvent::Text(t.clone()))
                }
            },
            RawEvent::CharRef(c) => Some(MarkupEvent::Text(char_string(*c))),
            RawEvent::NamedRef { name, position } => {
                match named_entity(name) {
                    Some(t) => Some(MarkupEvent::Text(t)),
                    None => {
                        proof {
                            assert(select_event(sv[i as int]) == Err::<
                                Option<MarkupEventModel>,
                                int,
                            >(*position as int));
                        }
                        return Err(ParseError::Markup(*position));
                    },
                }
            },
        };
        match selected {
            Some(next) => {
                proof {
                    assert(select_event(sv[i as int]) == Ok::<Option<MarkupEventModel>, int>(
                        Some(next.deep_view()),
                    ));
                }
                let ghost prev = events;
                let ghost nextg = next;
                events.push(next);
                proof {
                    crate::document::lemma_deep_view_push(prev, events, nextg);
                    match select_events(sv.skip(i as int + 1)) {
                        Err(p) => {},
                        Ok(rest) => {
                            assert(prev.deep_view() + (seq![nextg.deep_view()] + rest)
                                =~= events.deep_view() + rest);
                        },
                    }
                }
            },
            None => {
                proof {
                    assert(select_event(sv[i as int]) == Ok::<Option<MarkupEventModel>, int>(
                        None::<MarkupEventModel>,
                    ));
                }
            },
        }
        i = i + 1;
    }
    proof {
        assert(sv.skip(raws.len() as int).len() == 0);
        assert(events.deep_view() + Seq::<MarkupEventModel>::empty() =~= events.deep_view());
    }
    Ok(events)
}

} // verus!
