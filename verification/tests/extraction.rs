use std::io::{Cursor, Write};

use prose_lint::document::{DocumentElement, ParseError};
use prose_lint::engine::{score, sentence_string, Action};
use prose_lint::markup::read_events;
use prose_lint::odt::{
    build_document, parse, parse_paragraph, paragraph_is_section_break, resolve_styles,
    DocumentElementODT, MarkupEvent, TextAlign,
};

fn toks(parts: &[&str]) -> Vec<String> {
    parts.iter().map(|p| p.to_string()).collect()
}

#[test]
fn paragraph_splits_into_tokens_and_sentences() {
    let out = parse_paragraph(&"Hi there. Bye now.".to_string());
    assert_eq!(
        out,
        vec![
            DocumentElement::Sentence(toks(&["Hi", " ", "there", "."])),
            DocumentElement::Sentence(toks(&["Bye", " ", "now", "."])),
            DocumentElement::ParagraphEnd,
        ]
    );
}

#[test]
fn leading_whitespace_is_dropped_and_leftovers_flush() {
    let out = parse_paragraph(&"  and then".to_string());
    assert_eq!(
        out,
        vec![
            DocumentElement::Sentence(toks(&["and", " ", "then"])),
            DocumentElement::ParagraphEnd,
        ]
    );
}

#[test]
fn multi_sentence_dialogue_is_one_direct_speech_span() {
    let out = parse_paragraph(&"\u{2018}Stop. Go back!\u{2019} she said.".to_string());
    assert_eq!(
        out,
        vec![
            DocumentElement::DirectSpeech(toks(&["Stop", ".", " ", "Go", " ", "back", "!"])),
            DocumentElement::Sentence(toks(&["she", " ", "said", "."])),
            DocumentElement::ParagraphEnd,
        ]
    );
}

#[test]
fn all_terminators_close_sentences() {
    let out = parse_paragraph(&"One! Two? Three\u{2026}".to_string());
    assert_eq!(
        out,
        vec![
            DocumentElement::Sentence(toks(&["One", "!"])),
            DocumentElement::Sentence(toks(&["Two", "?"])),
            DocumentElement::Sentence(toks(&["Three", "\u{2026}"])),
            DocumentElement::ParagraphEnd,
        ]
    );
}

#[test]
fn section_break_markers_are_recognized_after_trimming() {
    assert!(paragraph_is_section_break(&"* * *".to_string()));
    assert!(paragraph_is_section_break(&" * * * ".to_string()));
    assert!(paragraph_is_section_break(&"#".to_string()));
    assert!(paragraph_is_section_break(&"\t#\n".to_string()));
    assert!(!paragraph_is_section_break(&"* * **".to_string()));
    assert!(!paragraph_is_section_break(&"chapter".to_string()));
}

#[test]
fn section_break_paragraph_contributes_only_section_end() {
    let elements = vec![
        DocumentElementODT::Text(" * * * ".to_string()),
        DocumentElementODT::ParagraphEnd,
        DocumentElementODT::Text("After.".to_string()),
        DocumentElementODT::ParagraphEnd,
    ];
    let doc = build_document(&elements);
    assert_eq!(
        doc.elements,
        vec![
            DocumentElement::SectionEnd,
            DocumentElement::Sentence(toks(&["After", "."])),
            DocumentElement::ParagraphEnd,
        ]
    );
    assert_eq!(doc.number_of_chapters, 1);
}

#[test]
fn centered_paragraphs_become_title_then_name() {
    let elements = vec![
        DocumentElementODT::ParagraphStyle(TextAlign::Centre),
        DocumentElementODT::Text("My Title".to_string()),
        DocumentElementODT::ParagraphEnd,
        DocumentElementODT::ParagraphStyle(TextAlign::Centre),
        DocumentElementODT::Text("My Name".to_string()),
        DocumentElementODT::ParagraphEnd,
        DocumentElementODT::ParagraphStyle(TextAlign::Left),
        DocumentElementODT::Text("Body here.".to_string()),
        DocumentElementODT::ParagraphEnd,
    ];
    let doc = build_document(&elements);
    assert_eq!(
        doc.elements,
        vec![
            DocumentElement::ChapterTitle("My Title".to_string()),
            DocumentElement::ChapterName("My Name".to_string()),
            DocumentElement::Sentence(toks(&["Body", " ", "here", "."])),
            DocumentElement::ParagraphEnd,
        ]
    );
}

#[test]
fn chapter_ends_match_chapter_count() {
    let elements = vec![
        DocumentElementODT::Text("One.".to_string()),
        DocumentElementODT::ParagraphEnd,
        DocumentElementODT::ChapterEnd,
        DocumentElementODT::Text("Two.".to_string()),
        DocumentElementODT::ParagraphEnd,
        DocumentElementODT::ChapterEnd,
        DocumentElementODT::Text("Three.".to_string()),
        DocumentElementODT::ParagraphEnd,
    ];
    let doc = build_document(&elements);
    let ends = doc
        .elements
        .iter()
        .filter(|e| matches!(e, DocumentElement::ChapterEnd))
        .count();
    assert_eq!(doc.number_of_chapters, 3);
    assert_eq!(ends as i32, doc.number_of_chapters - 1);
}

const CONTENT: &str = "<?xml version=\"1.0\" encoding=\"UTF-8\"?>\
<office:document-content>\
<office:automatic-styles>\
<style:style style:name=\"Title\" style:family=\"paragraph\">\
<style:paragraph-properties fo:text-align=\"center\"/>\
</style:style>\
<style:style style:name=\"PB\" style:family=\"paragraph\">\
<style:paragraph-properties fo:break-before=\"page\"/>\
</style:style>\
<style:style style:name=\"Plain\" style:family=\"paragraph\"></style:style>\
<style:style style:name=\"Em\" style:family=\"text\"></style:style>\
</office:automatic-styles>\
<office:body><office:text>\
<text:p text:style-name=\"Title\">Intro</text:p>\
<text:p text:style-name=\"Plain\">she could see.</text:p>\
<text:p text:style-name=\"PB\">A new start.</text:p>\
</office:text></office:body>\
</office:document-content>";

#[test]
fn markup_resolves_to_document() {
    let events = read_events(CONTENT).expect("events");
    let odt = resolve_styles(&events).expect("styles resolve");
    let doc = build_document(&odt);
    assert_eq!(
        doc.elements,
        vec![
            DocumentElement::ChapterTitle("Intro".to_string()),
            DocumentElement::Sentence(toks(&["she", " ", "could", " ", "see", "."])),
            DocumentElement::ParagraphEnd,
            DocumentElement::ChapterEnd,
            DocumentElement::Sentence(toks(&["A", " ", "new", " ", "start", "."])),
            DocumentElement::ParagraphEnd,
        ]
    );
    assert_eq!(doc.number_of_chapters, 2);
    let out = score(&doc);
    assert_eq!(out.len(), 1);
    assert_eq!(out[0].action, Action::Filtering);
    assert_eq!(sentence_string(&out[0].matched), "could see");
    assert_eq!(out[0].chapter_title, "Intro");
}

#[test]
fn entity_references_become_text() {
    let xml = "<style:style style:name=\"P\" style:family=\"paragraph\"></style:style>\
<text:p text:style-name=\"P\">A&amp;B&#33;</text:p>";
    let events = read_events(xml).expect("events");
    assert_eq!(
        events,
        vec![
            MarkupEvent::StyleStart {
                name: Some("P".to_string()),
                family: Some("paragraph".to_string()),
            },
            MarkupEvent::ParagraphStart { style: Some("P".to_string()) },
            MarkupEvent::Text("A".to_string()),
            MarkupEvent::Text("&".to_string()),
            MarkupEvent::Text("B".to_string()),
            MarkupEvent::Text("!".to_string()),
            MarkupEvent::ParagraphEnd,
        ]
    );
}

#[test]
fn stray_line_feed_text_is_filtered() {
    // A literal line-feed run between elements is a pretty-printing
    // artifact and never reaches the event stream.
    let xml = "<text:p>a</text:p>\n<text:p>b</text:p>";
    let events = read_events(xml).expect("events");
    assert_eq!(
        events,
        vec![
            MarkupEvent::ParagraphStart { style: None },
            MarkupEvent::Text("a".to_string()),
            MarkupEvent::ParagraphEnd,
            MarkupEvent::ParagraphStart { style: None },
            MarkupEvent::Text("b".to_string()),
            MarkupEvent::ParagraphEnd,
        ]
    );
}

#[test]
fn character_reference_line_feeds_are_kept() {
    // A line feed written as a character reference is user content, not
    // a pretty-printing artifact.
    let xml = "<text:p>a&#10;b</text:p>";
    let events = read_events(xml).expect("events");
    assert_eq!(
        events,
        vec![
            MarkupEvent::ParagraphStart { style: None },
            MarkupEvent::Text("a".to_string()),
            MarkupEvent::Text("\n".to_string()),
            MarkupEvent::Text("b".to_string()),
            MarkupEvent::ParagraphEnd,
        ]
    );
}

#[test]
fn unknown_style_reference_is_an_error() {
    let events = vec![MarkupEvent::ParagraphStart { style: Some("Ghostly".to_string()) }];
    assert_eq!(
        resolve_styles(&events),
        Err(ParseError::UnknownStyle("Ghostly".to_string()))
    );
}

#[test]
fn properties_without_a_paragraph_style_are_an_error() {
    let events = vec![
        MarkupEvent::StyleStart {
            name: Some("Em".to_string()),
            family: Some("text".to_string()),
        },
        MarkupEvent::ParagraphProperties {
            text_align: Some("center".to_string()),
            break_before: None,
        },
    ];
    assert_eq!(
        resolve_styles(&events),
        Err(ParseError::UnknownStyle("Em".to_string()))
    );
}

#[test]
fn style_redefinition_overwrites() {
    let events = vec![
        MarkupEvent::StyleStart {
            name: Some("P".to_string()),
            family: Some("paragraph".to_string()),
        },
        MarkupEvent::ParagraphProperties {
            text_align: Some("center".to_string()),
            break_before: None,
        },
        MarkupEvent::StyleStart {
            name: Some("P".to_string()),
            family: Some("paragraph".to_string()),
        },
        MarkupEvent::ParagraphStart { style: Some("P".to_string()) },
    ];
    let odt = resolve_styles(&events).expect("resolves");
    assert_eq!(
        odt,
        vec![DocumentElementODT::ParagraphStyle(TextAlign::Left)]
    );
}

#[test]
fn malformed_markup_reports_an_offset() {
    let r = read_events("<text:p><span></text:p>");
    assert!(matches!(r, Err(ParseError::Markup(_))));
}

fn zip_with(name: &str, content: &str) -> Vec<u8> {
    let mut writer = zip::ZipWriter::new(Cursor::new(Vec::new()));
    writer
        .start_file(name, zip::write::SimpleFileOptions::default())
        .expect("start member");
    writer.write_all(content.as_bytes()).expect("write member");
    writer.finish().expect("finish archive").into_inner()
}

#[test]
fn parse_reads_a_whole_container() {
    let data = zip_with("content.xml", CONTENT);
    let doc = parse(&data).expect("parses");
    assert_eq!(doc.number_of_chapters, 2);
    let ends = doc
        .elements
        .iter()
        .filter(|e| matches!(e, DocumentElement::ChapterEnd))
        .count();
    assert_eq!(ends as i32, doc.number_of_chapters - 1);
    assert_eq!(
        doc.elements[0],
        DocumentElement::ChapterTitle("Intro".to_string())
    );
}

#[test]
fn unreadable_container_is_an_error() {
    assert_eq!(parse(b"not an archive"), Err(ParseError::Container));
}

#[test]
fn missing_content_stream_is_an_error() {
    let data = zip_with("other.xml", "<a/>");
    assert_eq!(parse(&data), Err(ParseError::ContentMissing));
}

#[test]
fn malformed_content_stream_is_an_error() {
    let data = zip_with("content.xml", "<a><b></a>");
    assert!(matches!(parse(&data), Err(ParseError::Markup(_))));
}

#[test]
fn section_break_clears_chapter_title_state() {
    // The first paragraph is centered after the document-initial page
    // break, so it is marked as a title; being a section-break marker
    // wins and clears that mark, so the next centered paragraph is
    // ordinary body text, not a chapter name.
    let elements = vec![
        DocumentElementODT::ParagraphStyle(TextAlign::Centre),
        DocumentElementODT::Text("* * *".to_string()),
        DocumentElementODT::ParagraphEnd,
        DocumentElementODT::ParagraphStyle(TextAlign::Centre),
        DocumentElementODT::Text("Later".to_string()),
        DocumentElementODT::ParagraphEnd,
    ];
    let doc = build_document(&elements);
    assert_eq!(
        doc.elements,
        vec![
            DocumentElement::SectionEnd,
            DocumentElement::Sentence(toks(&["Later"])),
            DocumentElement::ParagraphEnd,
        ]
    );
}

#[test]
fn apostrophes_inside_words_do_not_toggle_direct_speech() {
    // A typographic apostrophe inside a word stays inside its token
    // under Unicode word segmentation, so it never closes a quotation.
    let out = parse_paragraph(&"don\u{2019}t stop.".to_string());
    assert_eq!(
        out,
        vec![
            DocumentElement::Sentence(toks(&["don\u{2019}t", " ", "stop", "."])),
            DocumentElement::ParagraphEnd,
        ]
    );
}

#[test]
fn content_stream_is_extracted_verbatim() {
    let data = zip_with("content.xml", CONTENT);
    let xml = prose_lint::container::extract_content(&data).expect("member");
    assert_eq!(xml, CONTENT);
}

#[test]
fn foreign_elements_are_skipped_even_with_bad_attributes() {
    // An element outside the container format contributes nothing, and
    // its attributes are never needed, so a bad escape in them is not an
    // error.
    let xml = "<foo bar=\"a&bad;\"/><text:p>x</text:p>";
    let events = read_events(xml).expect("events");
    assert_eq!(
        events,
        vec![
            MarkupEvent::ParagraphStart { style: None },
            MarkupEvent::Text("x".to_string()),
            MarkupEvent::ParagraphEnd,
        ]
    );
}

#[test]
fn malformed_attribute_on_selected_element_is_an_error() {
    let r = read_events("<text:p text:style-name=\"a&bad;\">x</text:p>");
    assert!(matches!(r, Err(ParseError::Markup(_))));
}
