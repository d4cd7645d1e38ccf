use prose_lint::document::{Document, DocumentElement};
use prose_lint::engine::{
    database_get, dictionary_get, init_database, init_dictionary, process_sentence, score,
    sentence_string, skip_action_in_direct_speech, Action, Candidate, Diagnostic,
    DictionaryEntry, PartOfSpeech,
};
use prose_lint::odt::parse_paragraph;

fn doc_from_paragraph(text: &str) -> Document {
    let elements = parse_paragraph(&text.to_string());
    Document { elements, number_of_chapters: 1 }
}

#[test]
fn potential_adverb_and_filtering_fire_in_order() {
    let doc = doc_from_paragraph("Suddenly, she could see the family.");
    let out = score(&doc);
    assert_eq!(out.len(), 2);
    assert_eq!(out[0].action, Action::PotentialAdverb);
    assert_eq!(sentence_string(&out[0].matched), "Suddenly");
    assert_eq!(out[1].action, Action::Filtering);
    assert_eq!(sentence_string(&out[1].matched), "could see");
    assert_eq!(
        sentence_string(&out[1].sentence),
        "Suddenly, she could see the family."
    );
    assert_eq!(out[1].chapter_number, 1);
    assert_eq!(out[1].section_number, 1);
    assert_eq!(out[1].paragraph_number, 1);
    assert_eq!(out[1].chapter_title, "");
}

#[test]
fn first_lookup_is_case_sensitive() {
    // The database keys are lowercase, and the first lookup matches the
    // word exactly as written, so a capitalized start word registers no
    // pattern.
    let doc = doc_from_paragraph("I am happy.");
    let out = score(&doc);
    assert!(out.is_empty());
}

#[test]
fn lowercase_contraction_fires() {
    let doc = doc_from_paragraph("i am happy.");
    let out = score(&doc);
    assert_eq!(out.len(), 1);
    assert_eq!(out[0].action, Action::Contraction);
    assert_eq!(sentence_string(&out[0].matched), "i am");
}

#[test]
fn single_word_trigger_fires_with_adverb_heuristic() {
    let doc = doc_from_paragraph("she suddenly left.");
    let out = score(&doc);
    assert_eq!(out.len(), 2);
    assert_eq!(out[0].action, Action::WeakImmediacy);
    assert_eq!(sentence_string(&out[0].matched), "suddenly");
    assert_eq!(out[1].action, Action::PotentialAdverb);
    assert_eq!(sentence_string(&out[1].matched), "suddenly");
}

#[test]
fn interposed_word_suppresses_match() {
    let doc = doc_from_paragraph("she could not see it.");
    let out = score(&doc);
    assert!(out.is_empty());
}

#[test]
fn whitespace_between_trigger_words_is_transparent() {
    let doc = doc_from_paragraph("she could  see it.");
    let out = score(&doc);
    assert_eq!(out.len(), 1);
    assert_eq!(out[0].action, Action::Filtering);
    assert_eq!(sentence_string(&out[0].matched), "could  see");
}

#[test]
fn direct_speech_reports_only_contractions() {
    // "it is" would fire a contraction anywhere; "bad" and "suddenly"
    // would fire subjective-adjective and adverb reports outside quotes.
    let doc = doc_from_paragraph("\u{2018}it is bad suddenly.\u{2019}");
    let out = score(&doc);
    assert_eq!(out.len(), 1);
    assert_eq!(out[0].action, Action::Contraction);
    assert_eq!(sentence_string(&out[0].matched), "it is");
}

#[test]
fn outside_direct_speech_all_checks_run() {
    let doc = doc_from_paragraph("it is bad suddenly.");
    let out = score(&doc);
    let actions: Vec<Action> = out.iter().map(|d| d.action).collect();
    assert_eq!(
        actions,
        vec![
            Action::Contraction,
            Action::SubjectiveAdjective,
            Action::WeakImmediacy,
            Action::PotentialAdverb,
        ]
    );
}

#[test]
fn dictionary_adverb_fires_and_other_tags_stay_silent() {
    // "family" is in the dictionary as a noun, so no potential-adverb
    // report despite the "ly" ending; "curmudgeonly" is an adjective.
    let doc = doc_from_paragraph("the curmudgeonly family left.");
    let out = score(&doc);
    assert!(out.is_empty());
}

#[test]
fn rescoring_gives_identical_diagnostics() {
    let doc = doc_from_paragraph("Suddenly, she could see the family.");
    let first = score(&doc);
    let second = score(&doc);
    assert_eq!(first, second);
}

#[test]
fn counters_track_structure() {
    let elements = vec![
        DocumentElement::Sentence(vec!["saw".to_string(), ".".to_string()]),
        DocumentElement::ParagraphEnd,
        DocumentElement::Sentence(vec!["saw".to_string(), ".".to_string()]),
        DocumentElement::SectionEnd,
        DocumentElement::Sentence(vec!["saw".to_string(), ".".to_string()]),
        DocumentElement::ChapterEnd,
        DocumentElement::ChapterTitle("Finale".to_string()),
        DocumentElement::Sentence(vec!["saw".to_string(), ".".to_string()]),
    ];
    let doc = Document { elements, number_of_chapters: 2 };
    let out = score(&doc);
    assert_eq!(out.len(), 4);
    assert_eq!(
        (out[0].chapter_number, out[0].section_number, out[0].paragraph_number),
        (1, 1, 1)
    );
    assert_eq!(
        (out[1].chapter_number, out[1].section_number, out[1].paragraph_number),
        (1, 1, 2)
    );
    assert_eq!(
        (out[2].chapter_number, out[2].section_number, out[2].paragraph_number),
        (1, 2, 1)
    );
    assert_eq!(
        (out[3].chapter_number, out[3].section_number, out[3].paragraph_number),
        (2, 1, 1)
    );
    assert_eq!(out[3].chapter_title, "Finale");
    assert_eq!(out[0].chapter_title, "");
}

#[test]
fn candidates_carry_over_between_elements() {
    // A sentence flushed without a terminator leaves its candidates in
    // flight, and the next span can complete the match.
    let elements = vec![
        DocumentElement::Sentence(vec!["she".to_string(), " ".to_string(), "could".to_string()]),
        DocumentElement::Sentence(vec!["see".to_string(), ".".to_string()]),
    ];
    let doc = Document { elements, number_of_chapters: 1 };
    let out = score(&doc);
    assert_eq!(out.len(), 1);
    assert_eq!(out[0].action, Action::Filtering);
    assert_eq!(sentence_string(&out[0].matched), "couldsee");
}

#[test]
fn database_lists_the_filtering_patterns() {
    let db = init_database();
    let triggers = database_get(&db, &"could".to_string()).expect("entry");
    assert_eq!(triggers.len(), 3);
    assert!(triggers.iter().all(|t| t.action == Action::Filtering));
    let words: Vec<String> = triggers.iter().map(|t| t.trigger.concat()).collect();
    assert_eq!(words, vec!["hear", "see", "taste"]);
    assert!(database_get(&db, &"nonword".to_string()).is_none());
    let will = database_get(&db, &"will".to_string()).expect("entry");
    assert_eq!(will.len(), 1);
    assert_eq!(will[0].action, Action::Contraction);
}

#[test]
fn dictionary_tags_words() {
    let dict = init_dictionary();
    assert_eq!(
        dictionary_get(&dict, &"family".to_string()),
        Some(PartOfSpeech::Noun)
    );
    assert_eq!(
        dictionary_get(&dict, &"curmudgeonly".to_string()),
        Some(PartOfSpeech::Adjective)
    );
    assert_eq!(dictionary_get(&dict, &"missing".to_string()), None);
}

#[test]
fn only_contractions_survive_direct_speech_skip() {
    assert!(skip_action_in_direct_speech(Action::Filtering));
    assert!(skip_action_in_direct_speech(Action::Beginning));
    assert!(skip_action_in_direct_speech(Action::WeakImmediacy));
    assert!(skip_action_in_direct_speech(Action::Adverb));
    assert!(skip_action_in_direct_speech(Action::PotentialAdverb));
    assert!(skip_action_in_direct_speech(Action::SubjectiveAdjective));
    assert!(!skip_action_in_direct_speech(Action::Contraction));
}

#[test]
fn continuation_matching_is_case_insensitive() {
    // The continuation word is matched through lowercasing, so "SEE"
    // completes a pattern stored as "see".
    let doc = doc_from_paragraph("she could SEE it.");
    let out = score(&doc);
    assert_eq!(out.len(), 1);
    assert_eq!(out[0].action, Action::Filtering);
    assert_eq!(sentence_string(&out[0].matched), "could SEE");
}

#[test]
fn beginning_trigger_fires() {
    let doc = doc_from_paragraph("she began to cry.");
    let out = score(&doc);
    assert_eq!(out.len(), 1);
    assert_eq!(out[0].action, Action::Beginning);
    assert_eq!(sentence_string(&out[0].matched), "began");
}

#[test]
fn adverb_fires_for_dictionary_tagged_adverbs() {
    let database = init_database();
    let dictionary = vec![DictionaryEntry {
        word: "quickly".to_string(),
        part_of_speech: PartOfSpeech::Adverb,
    }];
    let sentence: Vec<String> =
        ["he", " ", "ran", " ", "quickly", "."].iter().map(|w| w.to_string()).collect();
    let mut state: Vec<Candidate> = Vec::new();
    let mut out: Vec<Diagnostic> = Vec::new();
    process_sentence(
        &sentence,
        &database,
        &dictionary,
        &mut state,
        &String::new(),
        1,
        1,
        1,
        false,
        &mut out,
    );
    assert_eq!(out.len(), 1);
    assert_eq!(out[0].action, Action::Adverb);
    assert_eq!(sentence_string(&out[0].matched), "quickly");
    assert_eq!(sentence_string(&out[0].sentence), "he ran quickly.");
}
