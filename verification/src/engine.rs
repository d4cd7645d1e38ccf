use vstd::prelude::*;

use crate::document::{lemma_deep_view_push, Document, DocumentElement, DocumentModel, ElementModel};
use crate::text::{
    clone_strings, concat_seqs, dec_of, ends_in_ly, i32_dec_string, is_blank, is_blank_token,
    lower_of, lowercase, word_ends_in_ly,
};

verus! {

// ---------------------------------------------------------------------------
// Actions, triggers, dictionary.
// ---------------------------------------------------------------------------

/// The kind of stylistic issue a trigger reports.
#[derive(Clone, Copy, PartialEq, Eq, Structural, Debug)]
pub enum Action {
    Filtering,
    Beginning,
    WeakImmediacy,
    PotentialAdverb,
    Adverb,
    Contraction,
    SubjectiveAdjective,
}

impl DeepView for Action {
    type V = Action;

    open spec fn deep_view(&self) -> Action {
        *self
    }
}

/// Part of speech recorded in the dictionary, used only to disambiguate
/// words ending in "ly".
#[derive(Clone, Copy, PartialEq, Eq, Structural, Debug)]
pub enum PartOfSpeech {
    Adjective,
    Adverb,
    Noun,
}

/// A trigger pattern: the action to report, and the words required to
/// follow the start word, in order (empty for a single-word trigger).
pub struct ActionTrigger {
    pub action: Action,
    pub trigger: Vec<String>,
}

/// The mathematical shape of an [`ActionTrigger`].
#[verifier::ext_equal]
pub struct TriggerModel {
    pub action: Action,
    pub trigger: Seq<Seq<char>>,
}

impl DeepView for ActionTrigger {
    type V = TriggerModel;

    open spec fn deep_view(&self) -> TriggerModel {
        TriggerModel { action: self.action, trigger: self.trigger.deep_view() }
    }
}

/// One trigger-database entry: a start word and the patterns that begin
/// with it.
pub struct DatabaseEntry {
    pub word: String,
    pub triggers: Vec<ActionTrigger>,
}

/// The mathematical shape of a [`DatabaseEntry`].
#[verifier::ext_equal]
pub struct DatabaseEntryModel {
    pub word: Seq<char>,
    pub triggers: Seq<TriggerModel>,
}

impl DeepView for DatabaseEntry {
    type V = DatabaseEntryModel;

    open spec fn deep_view(&self) -> DatabaseEntryModel {
        DatabaseEntryModel { word: self.word@, triggers: self.triggers.deep_view() }
    }
}

/// One dictionary entry: a word and its part of speech.
pub struct DictionaryEntry {
    pub word: String,
    pub part_of_speech: PartOfSpeech,
}

/// The mathematical shape of a [`DictionaryEntry`].
#[verifier::ext_equal]
pub struct DictionaryEntryModel {
    pub word: Seq<char>,
    pub part_of_speech: PartOfSpeech,
}

impl DeepView for DictionaryEntry {
    type V = DictionaryEntryModel;

    open spec fn deep_view(&self) -> DictionaryEntryModel {
        DictionaryEntryModel { word: self.word@, part_of_speech: self.part_of_speech }
    }
}

// ---------------------------------------------------------------------------
// Lookup by start word.
// ---------------------------------------------------------------------------

/// The patterns registered under start word `w`, if any: the first entry
/// whose word is `w`.
pub open spec fn db_lookup(db: Seq<DatabaseEntryModel>, w: Seq<char>) -> Option<Seq<TriggerModel>>
    decreases db.len(),
{
    if db.len() == 0 {
        None
    } else if db[0].word == w {
        Some(db[0].triggers)
    } else {
        db_lookup(db.drop_first(), w)
    }
}

/// The part of speech recorded for `w`, if any.
pub open spec fn dict_lookup(dict: Seq<DictionaryEntryModel>, w: Seq<char>) -> Option<PartOfSpeech>
    decreases dict.len(),
{
    if dict.len() == 0 {
        None
    } else if dict[0].word == w {
        Some(dict[0].part_of_speech)
    } else {
        dict_lookup(dict.drop_first(), w)
    }
}

/// Finds the database entry for start word `w`.
pub fn database_get<'a>(db: &'a Vec<DatabaseEntry>, w: &String) -> (r: Option<
    &'a Vec<ActionTrigger>,
>)
    ensures
        match r {
            Some(ts) => db_lookup(db.deep_view(), w@) == Some(ts.deep_view()),
            None => db_lookup(db.deep_view(), w@) is None,
        },
{
    let ghost dv = db.deep_view();
    proof {
        assert(dv.skip(0) =~= dv);
    }
    let mut i: usize = 0;
    while i < db.len()
        invariant
            i <= db.len(),
            dv == db.deep_view(),
            dv.len() == db.len(),
            db_lookup(dv, w@) == db_lookup(dv.skip(i as int), w@),
        decreases db.len() - i,
    {
        proof {
            assert(dv.skip(i as int)[0] == dv[i as int]);
        }
        if db[i].word == *w {
            return Some(&db[i].triggers);
        }
        proof {
            assert(dv.skip(i as int).drop_first() =~= dv.skip(i + 1));
        }
        i = i + 1;
    }
    proof {
        assert(dv.skip(db.len() as int).len() == 0);
    }
    None
}

/// Finds the dictionary entry for word `w`.
pub fn dictionary_get(dict: &Vec<DictionaryEntry>, w: &String) -> (r: Option<PartOfSpeech>)
    ensures
        r == dict_lookup(dict.deep_view(), w@),
{
    let ghost dv = dict.deep_view();
    proof {
        assert(dv.skip(0) =~= dv);
    }
    let mut i: usize = 0;
    while i < dict.len()
        invariant
            i <= dict.len(),
            dv == dict.deep_view(),
            dv.len() == dict.len(),
            dict_lookup(dv, w@) == dict_lookup(dv.skip(i as int), w@),
        decreases dict.len() - i,
    {
        proof {
            assert(dv.skip(i as int)[0] == dv[i as int]);
        }
        if dict[i].word == *w {
            return Some(dict[i].part_of_speech);
        }
        proof {
            assert(dv.skip(i as int).drop_first() =~= dv.skip(i + 1));
        }
        i = i + 1;
    }
    proof {
        assert(dv.skip(dict.len() as int).len() == 0);
    }
    None
}

// ---------------------------------------------------------------------------
// The static trigger database and dictionary.
// ---------------------------------------------------------------------------

/// A database entry with a single trigger and no continuation words.
pub open spec fn ent0(word: Seq<char>, action: Action) -> DatabaseEntryModel {
    DatabaseEntryModel {
        word,
        triggers: seq![TriggerModel { action, trigger: Seq::empty() }],
    }
}

/// A database entry with a single trigger of one continuation word.
pub open spec fn ent1(word: Seq<char>, action: Action, w1: Seq<char>) -> DatabaseEntryModel {
    DatabaseEntryModel {
        word,
        triggers: seq![TriggerModel { action, trigger: seq![w1] }],
    }
}

/// The full trigger database.
pub open spec fn spec_database() -> Seq<DatabaseEntryModel> {
    seq![
        DatabaseEntryModel {
            word: "could"@,
            triggers: seq![
                TriggerModel { action: Action::Filtering, trigger: seq!["hear"@] },
                TriggerModel { action: Action::Filtering, trigger: seq!["see"@] },
                TriggerModel { action: Action::Filtering, trigger: seq!["taste"@] },
            ],
        },
        ent0("heard"@, Action::Filtering),
        ent0("listened"@, Action::Filtering),
        ent0("looked"@, Action::Filtering),
        ent0("saw"@, Action::Filtering),
        ent0("seemed"@, Action::Filtering),
        ent0("smelt"@, Action::Filtering),
        ent0("spotted"@, Action::Filtering),
        ent0("tasted"@, Action::Filtering),
        ent0("watched"@, Action::Filtering),
        ent0("commenced"@, Action::Beginning),
        ent0("began"@, Action::Beginning),
        ent0("initiated"@, Action::Beginning),
        ent0("started"@, Action::Beginning),
        ent0("immediately"@, Action::WeakImmediacy),
        ent1("just"@, Action::WeakImmediacy, "then"@),
        ent0("suddenly"@, Action::WeakImmediacy),
        ent1("are"@, Action::Contraction, "not"@),
        ent1("can"@, Action::Contraction, "not"@),
        ent1("do"@, Action::Contraction, "not"@),
        ent1("has"@, Action::Contraction, "not"@),
        ent1("have"@, Action::Contraction, "not"@),
        DatabaseEntryModel {
            word: "i"@,
            triggers: seq![
                TriggerModel { action: Action::Contraction, trigger: seq!["am"@] },
                TriggerModel { action: Action::Contraction, trigger: seq!["have"@] },
                TriggerModel { action: Action::Contraction, trigger: seq!["will"@] },
                TriggerModel { action: Action::Contraction, trigger: seq!["would"@] },
            ],
        },
        DatabaseEntryModel {
            word: "it"@,
            triggers: seq![
                TriggerModel { action: Action::Contraction, trigger: seq!["is"@] },
                TriggerModel { action: Action::Contraction, trigger: seq!["will"@] },
                TriggerModel { action: Action::Contraction, trigger: seq!["would"@] },
            ],
        },
        ent1("there"@, Action::Contraction, "is"@),
        DatabaseEntryModel {
            word: "they"@,
            triggers: seq![
                TriggerModel { action: Action::Contraction, trigger: seq!["are"@] },
                TriggerModel { action: Action::Contraction, trigger: seq!["have"@] },
                TriggerModel { action: Action::Contraction, trigger: seq!["will"@] },
                TriggerModel { action: Action::Contraction, trigger: seq!["would"@] },
            ],
        },
        DatabaseEntryModel {
            word: "you"@,
            triggers: seq![
                TriggerModel { action: Action::Contraction, trigger: seq!["are"@] },
                TriggerModel { action: Action::Contraction, trigger: seq!["have"@] },
                TriggerModel { action: Action::Contraction, trigger: seq!["will"@] },
                TriggerModel { action: Action::Contraction, trigger: seq!["would"@] },
            ],
        },
        DatabaseEntryModel {
            word: "we"@,
            triggers: seq![
                TriggerModel { action: Action::Contraction, trigger: seq!["are"@] },
                TriggerModel { action: Action::Contraction, trigger: seq!["have"@] },
                TriggerModel { action: Action::Contraction, trigger: seq!["will"@] },
                TriggerModel { action: Action::Contraction, trigger: seq!["would"@] },
            ],
        },
        ent1("will"@, Action::Contraction, "not"@),
        ent0("amazing"@, Action::SubjectiveAdjective),
        ent0("beautiful"@, Action::SubjectiveAdjective),
        ent0("bad"@, Action::SubjectiveAdjective),
        ent0("excellent"@, Action::SubjectiveAdjective),
        ent0("fantastic"@, Action::SubjectiveAdjective),
        ent0("good"@, Action::SubjectiveAdjective),
        ent0("great"@, Action::SubjectiveAdjective),
        ent0("lovely"@, Action::SubjectiveAdjective),
        ent0("wonderful"@, Action::SubjectiveAdjective),
    ]
}

/// The full dictionary.
pub open spec fn spec_dictionary() -> Seq<DictionaryEntryModel> {
    seq![
        DictionaryEntryModel { word: "curmudgeonly"@, part_of_speech: PartOfSpeech::Adjective },
        DictionaryEntryModel { word: "family"@, part_of_speech: PartOfSpeech::Noun },
    ]
}

/// A trigger with no continuation words.
fn trig0(action: Action) -> (t: ActionTrigger)
    ensures
        t.deep_view() == (TriggerModel { action, trigger: Seq::<Seq<char>>::empty() }),
{
    let t = ActionTrigger { action, trigger: Vec::new() };
    assert(t.trigger.deep_view() =~= Seq::<Seq<char>>::empty());
    t
}

/// A trigger with one continuation word.
fn trig1(action: Action, w1: &str) -> (t: ActionTrigger)
    ensures
        t.deep_view() == (TriggerModel { action, trigger: seq![w1@] }),
{
    let mut v: Vec<String> = Vec::new();
    v.push(String::from_str(w1));
    let t = ActionTrigger { action, trigger: v };
    assert(t.trigger.deep_view() =~= seq![w1@]);
    t
}

/// A database entry holding a single trigger with no continuation words.
fn entry0(word: &str, action: Action) -> (e: DatabaseEntry)
    ensures
        e.deep_view() == ent0(word@, action),
{
    let mut ts: Vec<ActionTrigger> = Vec::new();
    ts.push(trig0(action));
    let e = DatabaseEntry { word: String::from_str(word), triggers: ts };
    assert(e.deep_view() =~~= ent0(word@, action));
    e
}

/// A database entry holding a single trigger with one continuation word.
fn entry1(word: &str, action: Action, w1: &str) -> (e: DatabaseEntry)
    ensures
        e.deep_view() == ent1(word@, action, w1@),
{
    let mut ts: Vec<ActionTrigger> = Vec::new();
    ts.push(trig1(action, w1));
    let e = DatabaseEntry { word: String::from_str(word), triggers: ts };
    assert(e.deep_view() =~~= ent1(word@, action, w1@));
    e
}

/// Builds the trigger database: a mapping from trigger-start word to the
/// multi-word patterns beginning with it, each tagged with an action kind.
pub fn init_database() -> (d: Vec<DatabaseEntry>)
    ensures
        d.deep_view() == spec_database(),
{
    let mut d: Vec<DatabaseEntry> = Vec::new();

    let mut could_ts: Vec<ActionTrigger> = Vec::new();
    could_ts.push(trig1(Action::Filtering, "hear"));
    could_ts.push(trig1(Action::Filtering, "see"));
    could_ts.push(trig1(Action::Filtering, "taste"));
    d.push(DatabaseEntry { word: String::from_str("could"), triggers: could_ts });

    d.push(entry0("heard", Action::Filtering));
    d.push(entry0("listened", Action::Filtering));
    d.push(entry0("looked", Action::Filtering));
    d.push(entry0("saw", Action::Filtering));
    d.push(entry0("seemed", Action::Filtering));
    d.push(entry0("smelt", Action::Filtering));
    d.push(entry0("spotted", Action::Filtering));
    d.push(entry0("tasted", Action::Filtering));
    d.push(entry0("watched", Action::Filtering));

    d.push(entry0("commenced", Action::Beginning));
    d.push(entry0("began", Action::Beginning));
    d.push(entry0("initiated", Action::Beginning));
    d.push(entry0("started", Action::Beginning));

    d.push(entry0("immediately", Action::WeakImmediacy));
    d.push(entry1("just", Action::WeakImmediacy, "then"));
    d.push(entry0("suddenly", Action::WeakImmediacy));

    d.push(entry1("are", Action::Contraction, "not"));
    d.push(entry1("can", Action::Contraction, "not"));
    d.push(entry1("do", Action::Contraction, "not"));
    d.push(entry1("has", Action::Contraction, "not"));
    d.push(entry1("have", Action::Contraction, "not"));

    let mut i_ts: Vec<ActionTrigger> = Vec::new();
    i_ts.push(trig1(Action::Contraction, "am"));
    i_ts.push(trig1(Action::Contraction, "have"));
    i_ts.push(trig1(Action::Contraction, "will"));
    i_ts.push(trig1(Action::Contraction, "would"));
    d.push(DatabaseEntry { word: String::from_str("i"), triggers: i_ts });

    let mut it_ts: Vec<ActionTrigger> = Vec::new();
    it_ts.push(trig1(Action::Contraction, "is"));
    it_ts.push(trig1(Action::Contraction, "will"));
    it_ts.push(trig1(Action::Contraction, "would"));
    d.push(DatabaseEntry { word: String::from_str("it"), triggers: it_ts });

    d.push(entry1("there", Action::Contraction, "is"));

    let mut they_ts: Vec<ActionTrigger> = Vec::new();
    they_ts.push(trig1(Action::Contraction, "are"));
    they_ts.push(trig1(Action::Contraction, "have"));
    they_ts.push(trig1(Action::Contraction, "will"));
    they_ts.push(trig1(Action::Contraction, "would"));
    d.push(DatabaseEntry { word: String::from_str("they"), triggers: they_ts });

    let mut you_ts: Vec<ActionTrigger> = Vec::new();
    you_ts.push(trig1(Action::Contraction, "are"));
    you_ts.push(trig1(Action::Contraction, "have"));
    you_ts.push(trig1(Action::Contraction, "will"));
    you_ts.push(trig1(Action::Contraction, "would"));
    d.push(DatabaseEntry { word: String::from_str("you"), triggers: you_ts });

    let mut we_ts: Vec<ActionTrigger> = Vec::new();
    we_ts.push(trig1(Action::Contraction, "are"));
    we_ts.push(trig1(Action::Contraction, "have"));
    we_ts.push(trig1(Action::Contraction, "will"));
    we_ts.push(trig1(Action::Contraction, "would"));
    d.push(DatabaseEntry { word: String::from_str("we"), triggers: we_ts });

    d.push(entry1("will", Action::Contraction, "not"));

    d.push(entry0("amazing", Action::SubjectiveAdjective));
    d.push(entry0("beautiful", Action::SubjectiveAdjective));
    d.push(entry0("bad", Action::SubjectiveAdjective));
    d.push(entry0("excellent", Action::SubjectiveAdjective));
    d.push(entry0("fantastic", Action::SubjectiveAdjective));
    d.push(entry0("good", Action::SubjectiveAdjective));
    d.push(entry0("great", Action::SubjectiveAdjective));
    d.push(entry0("lovely", Action::SubjectiveAdjective));
    d.push(entry0("wonderful", Action::SubjectiveAdjective));

    assert(d.deep_view() =~~= spec_database());
    d
}

/// Builds the dictionary used to disambiguate words ending in "ly".
pub fn init_dictionary() -> (d: Vec<DictionaryEntry>)
    ensures
        d.deep_view() == spec_dictionary(),
{
    let mut d: Vec<DictionaryEntry> = Vec::new();
    d.push(DictionaryEntry {
        word: String::from_str("curmudgeonly"),
        part_of_speech: PartOfSpeech::Adjective,
    });
    d.push(DictionaryEntry {
        word: String::from_str("family"),
        part_of_speech: PartOfSpeech::Noun,
    });
    assert(d.deep_view() =~~= spec_dictionary());
    d
}

} // verus!

verus! {

// ---------------------------------------------------------------------------
// In-flight match candidates.
// ---------------------------------------------------------------------------

/// An in-flight trigger match: the lowercase word expected next, the action
/// to report on completion, the continuation words still required after the
/// expected one, and the verbatim history of tokens consumed so far.
pub struct Candidate {
    pub expected: String,
    pub action: Action,
    pub remaining: Vec<String>,
    pub history: Vec<String>,
}

/// The mathematical shape of a [`Candidate`].
#[verifier::ext_equal]
pub struct CandidateModel {
    pub expected: Seq<char>,
    pub action: Action,
    pub remaining: Seq<Seq<char>>,
    pub history: Seq<Seq<char>>,
}

impl DeepView for Candidate {
    type V = CandidateModel;

    open spec fn deep_view(&self) -> CandidateModel {
        CandidateModel {
            expected: self.expected@,
            action: self.action,
            remaining: self.remaining.deep_view(),
            history: self.history.deep_view(),
        }
    }
}

/// A reported stylistic issue: the action kind, the location at which it
/// was found, the matched trigger text, and the tokens of the full
/// sentence.
#[derive(Debug, PartialEq)]
pub struct Diagnostic {
    pub action: Action,
    pub chapter_title: String,
    pub chapter_number: i32,
    pub section_number: i32,
    pub paragraph_number: i32,
    pub matched: Vec<String>,
    pub sentence: Vec<String>,
}

/// The mathematical shape of a [`Diagnostic`].
#[verifier::ext_equal]
pub struct DiagnosticModel {
    pub action: Action,
    pub chapter_title: Seq<char>,
    pub chapter_number: int,
    pub section_number: int,
    pub paragraph_number: int,
    pub matched: Seq<Seq<char>>,
    pub sentence: Seq<Seq<char>>,
}

impl DeepView for Diagnostic {
    type V = DiagnosticModel;

    open spec fn deep_view(&self) -> DiagnosticModel {
        DiagnosticModel {
            action: self.action,
            chapter_title: self.chapter_title@,
            chapter_number: self.chapter_number as int,
            section_number: self.section_number as int,
            paragraph_number: self.paragraph_number as int,
            matched: self.matched.deep_view(),
            sentence: self.sentence.deep_view(),
        }
    }
}

/// Where in the document the engine currently stands.
#[verifier::ext_equal]
pub struct LocationModel {
    pub chapter_title: Seq<char>,
    pub chapter_number: int,
    pub section_number: int,
    pub paragraph_number: int,
}

/// A fired trigger, before the location is attached.
#[verifier::ext_equal]
pub struct FiredModel {
    pub action: Action,
    pub matched: Seq<Seq<char>>,
}

/// The diagnostics for a sequence of fired triggers, at one location and
/// sentence.
pub open spec fn diags_of(
    fires: Seq<FiredModel>,
    sentence: Seq<Seq<char>>,
    loc: LocationModel,
) -> Seq<DiagnosticModel> {
    fires.map_values(
        |f: FiredModel|
            DiagnosticModel {
                action: f.action,
                chapter_title: loc.chapter_title,
                chapter_number: loc.chapter_number,
                section_number: loc.section_number,
                paragraph_number: loc.paragraph_number,
                matched: f.matched,
                sentence: sentence,
            },
    )
}

proof fn lemma_diags_of_app(
    a: Seq<FiredModel>,
    b: Seq<FiredModel>,
    sentence: Seq<Seq<char>>,
    loc: LocationModel,
)
    ensures
        diags_of(a + b, sentence, loc) == diags_of(a, sentence, loc) + diags_of(b, sentence, loc),
{
    assert(diags_of(a + b, sentence, loc) =~= diags_of(a, sentence, loc) + diags_of(
        b,
        sentence,
        loc,
    ));
}

// ---------------------------------------------------------------------------
// One word of the trigger automaton.
// ---------------------------------------------------------------------------

/// Every in-flight candidate with the whitespace token `w` appended to its
/// history, so that history stays a verbatim substring of the sentence.
pub open spec fn with_history_appended(st: Seq<CandidateModel>, w: Seq<char>) -> Seq<
    CandidateModel,
> {
    st.map_values(
        |c: CandidateModel|
            CandidateModel {
                expected: c.expected,
                action: c.action,
                remaining: c.remaining,
                history: c.history.push(w),
            },
    )
}

/// The fresh candidates registered when a start word with patterns `ts` is
/// seen: one per pattern, keyed by the lowercase `lw` of the word, except
/// that inside direct speech only `Contraction` patterns register.
pub open spec fn registered_candidates(
    ts: Seq<TriggerModel>,
    direct_speech: bool,
    lw: Seq<char>,
) -> Seq<CandidateModel>
    decreases ts.len(),
{
    if ts.len() == 0 {
        Seq::empty()
    } else {
        let rest = registered_candidates(ts.drop_last(), direct_speech, lw);
        let t = ts.last();
        if direct_speech && t.action != Action::Contraction {
            rest
        } else {
            rest.push(
                CandidateModel {
                    expected: lw,
                    action: t.action,
                    remaining: t.trigger,
                    history: Seq::empty(),
                },
            )
        }
    }
}

/// The candidates surviving the arrival of non-whitespace word `w` (with
/// lowercase `lw`): exactly those expecting `lw` with continuation words
/// left, advanced by one word; all others are discarded.
pub open spec fn advanced_state(st: Seq<CandidateModel>, w: Seq<char>, lw: Seq<char>) -> Seq<
    CandidateModel,
>
    decreases st.len(),
{
    if st.len() == 0 {
        Seq::empty()
    } else {
        let rest = advanced_state(st.drop_last(), w, lw);
        let c = st.last();
        if c.expected == lw && c.remaining.len() > 0 {
            rest.push(
                CandidateModel {
                    expected: c.remaining[0],
                    action: c.action,
                    remaining: c.remaining.drop_first(),
                    history: c.history.push(w),
                },
            )
        } else {
            rest
        }
    }
}

/// The triggers completed by the arrival of `w`: candidates expecting `lw`
/// with no continuation words left, in candidate order.
pub open spec fn fired_matches(st: Seq<CandidateModel>, w: Seq<char>, lw: Seq<char>) -> Seq<
    FiredModel,
>
    decreases st.len(),
{
    if st.len() == 0 {
        Seq::empty()
    } else {
        let rest = fired_matches(st.drop_last(), w, lw);
        let c = st.last();
        if c.expected == lw && c.remaining.len() == 0 {
            rest.push(FiredModel { action: c.action, matched: c.history.push(w) })
        } else {
            rest
        }
    }
}

/// The adverb heuristic: outside direct speech, a word ending in "ly" that
/// the dictionary tags as an adverb fires `Adverb`; one the dictionary
/// does not know fires `PotentialAdverb`; one tagged otherwise fires
/// nothing.
pub open spec fn adverb_fires(
    dict: Seq<DictionaryEntryModel>,
    direct_speech: bool,
    w: Seq<char>,
) -> Seq<FiredModel> {
    if !direct_speech && ends_in_ly(w) {
        match dict_lookup(dict, w) {
            Some(p) => if p is Adverb {
                seq![FiredModel { action: Action::Adverb, matched: seq![w] }]
            } else {
                Seq::empty()
            },
            None => seq![FiredModel { action: Action::PotentialAdverb, matched: seq![w] }],
        }
    } else {
        Seq::empty()
    }
}

/// The candidates in flight once the start word's fresh registrations have
/// been appended.
pub open spec fn state_after_register(
    db: Seq<DatabaseEntryModel>,
    st: Seq<CandidateModel>,
    direct_speech: bool,
    w: Seq<char>,
) -> Seq<CandidateModel> {
    match db_lookup(db, w) {
        Some(ts) => st + registered_candidates(ts, direct_speech, lower_of(w)),
        None => st,
    }
}

/// The match state after one token of a sentence.
pub open spec fn step_state(
    db: Seq<DatabaseEntryModel>,
    st: Seq<CandidateModel>,
    direct_speech: bool,
    w: Seq<char>,
) -> Seq<CandidateModel> {
    if is_blank(w) {
        with_history_appended(st, w)
    } else {
        advanced_state(state_after_register(db, st, direct_speech, w), w, lower_of(w))
    }
}

/// The triggers fired by one token of a sentence.
pub open spec fn step_fires(
    db: Seq<DatabaseEntryModel>,
    dict: Seq<DictionaryEntryModel>,
    st: Seq<CandidateModel>,
    direct_speech: bool,
    w: Seq<char>,
) -> Seq<FiredModel> {
    if is_blank(w) {
        Seq::empty()
    } else {
        fired_matches(state_after_register(db, st, direct_speech, w), w, lower_of(w))
            + adverb_fires(dict, direct_speech, w)
    }
}

// ---------------------------------------------------------------------------
// A whole sentence.
// ---------------------------------------------------------------------------

/// The match state after all tokens of `words`, in order.
pub open spec fn run_state(
    db: Seq<DatabaseEntryModel>,
    st: Seq<CandidateModel>,
    direct_speech: bool,
    words: Seq<Seq<char>>,
) -> Seq<CandidateModel>
    decreases words.len(),
{
    if words.len() == 0 {
        st
    } else {
        run_state(db, step_state(db, st, direct_speech, words[0]), direct_speech,
            words.drop_first())
    }
}

/// The triggers fired over all tokens of `words`, in order.
pub open spec fn run_fires(
    db: Seq<DatabaseEntryModel>,
    dict: Seq<DictionaryEntryModel>,
    st: Seq<CandidateModel>,
    direct_speech: bool,
    words: Seq<Seq<char>>,
) -> Seq<FiredModel>
    decreases words.len(),
{
    if words.len() == 0 {
        Seq::empty()
    } else {
        step_fires(db, dict, st, direct_speech, words[0]) + run_fires(
            db,
            dict,
            step_state(db, st, direct_speech, words[0]),
            direct_speech,
            words.drop_first(),
        )
    }
}

/// Running a sentence splits over concatenation of its token stream.
proof fn lemma_run_app(
    db: Seq<DatabaseEntryModel>,
    dict: Seq<DictionaryEntryModel>,
    st: Seq<CandidateModel>,
    direct_speech: bool,
    xs: Seq<Seq<char>>,
    ys: Seq<Seq<char>>,
)
    ensures
        run_state(db, st, direct_speech, xs + ys) == run_state(
            db,
            run_state(db, st, direct_speech, xs),
            direct_speech,
            ys,
        ),
        run_fires(db, dict, st, direct_speech, xs + ys) == run_fires(db, dict, st, direct_speech,
            xs) + run_fires(db, dict, run_state(db, st, direct_speech, xs), direct_speech, ys),
    decreases xs.len(),
{
    if xs.len() == 0 {
        assert(xs + ys =~= ys);
        assert(run_fires(db, dict, st, direct_speech, xs) + run_fires(
            db,
            dict,
            st,
            direct_speech,
            ys,
        ) =~= run_fires(db, dict, st, direct_speech, ys));
    } else {
        let st1 = step_state(db, st, direct_speech, xs[0]);
        assert((xs + ys)[0] == xs[0]);
        assert((xs + ys).drop_first() =~= xs.drop_first() + ys);
        lemma_run_app(db, dict, st1, direct_speech, xs.drop_first(), ys);
        assert(run_fires(db, dict, st, direct_speech, xs + ys) =~= run_fires(
            db,
            dict,
            st,
            direct_speech,
            xs,
        ) + run_fires(db, dict, run_state(db, st, direct_speech, xs), direct_speech, ys));
    }
}

/// Extending a token stream by one word steps the state and appends that
/// word's fires.
proof fn lemma_run_snoc(
    db: Seq<DatabaseEntryModel>,
    dict: Seq<DictionaryEntryModel>,
    st: Seq<CandidateModel>,
    direct_speech: bool,
    words: Seq<Seq<char>>,
    i: int,
)
    requires
        0 <= i < words.len(),
    ensures
        run_state(db, st, direct_speech, words.take(i + 1)) == step_state(
            db,
            run_state(db, st, direct_speech, words.take(i)),
            direct_speech,
            words[i],
        ),
        run_fires(db, dict, st, direct_speech, words.take(i + 1)) == run_fires(
            db,
            dict,
            st,
            direct_speech,
            words.take(i),
        ) + step_fires(
            db,
            dict,
            run_state(db, st, direct_speech, words.take(i)),
            direct_speech,
            words[i],
        ),
{
    let one = seq![words[i]];
    assert(words.take(i + 1) =~= words.take(i) + one);
    lemma_run_app(db, dict, st, direct_speech, words.take(i), one);
    let stm = run_state(db, st, direct_speech, words.take(i));
    assert(one.len() == 1);
    assert(one[0] == words[i]);
    let rest = one.drop_first();
    assert(rest =~= Seq::<Seq<char>>::empty());
    assert(rest.len() == 0);
    let st2 = step_state(db, stm, direct_speech, words[i]);
    assert(run_state(db, stm, direct_speech, one) == run_state(db, st2, direct_speech, rest));
    assert(run_state(db, st2, direct_speech, rest) == st2);
    assert(run_fires(db, dict, stm, direct_speech, one) == step_fires(
        db,
        dict,
        stm,
        direct_speech,
        words[i],
    ) + run_fires(db, dict, st2, direct_speech, rest));
    assert(run_fires(db, dict, st2, direct_speech, rest) =~= Seq::<FiredModel>::empty());
    assert(step_fires(db, dict, stm, direct_speech, words[i]) + Seq::<FiredModel>::empty()
        =~= step_fires(db, dict, stm, direct_speech, words[i]));
}

} // verus!

verus! {

/// Inside direct speech, every check but contraction detection is skipped.
pub fn skip_action_in_direct_speech(action: Action) -> (r: bool)
    ensures
        r == (action != Action::Contraction),
{
    action != Action::Contraction
}

/// Appends a whitespace token to every in-flight candidate's history, so
/// the history stays a verbatim substring of the sentence.
pub fn add_history_to_state(word: &String, state: &mut Vec<Candidate>)
    ensures
        final(state).deep_view() == with_history_appended(old(state).deep_view(), word@),
{
    let ghost sv = old(state).deep_view();
    let ghost target = with_history_appended(sv, word@);
    let mut new_state: Vec<Candidate> = Vec::new();
    proof {
        assert(new_state.deep_view() =~= target.take(0));
    }
    let mut i: usize = 0;
    while i < state.len()
        invariant
            i <= state.len(),
            sv == state.deep_view(),
            sv.len() == state.len(),
            target == with_history_appended(sv, word@),
            new_state.deep_view() == target.take(i as int),
        decreases state.len() - i,
    {
        let c = &state[i];
        proof {
            assert(sv[i as int] == c.deep_view());
        }
        let mut h = clone_strings(&c.history);
        h.push(word.clone());
        let nc = Candidate {
            expected: c.expected.clone(),
            action: c.action,
            remaining: clone_strings(&c.remaining),
            history: h,
        };
        proof {
            assert(nc.deep_view().history =~= sv[i as int].history.push(word@));
            assert(nc.deep_view().remaining =~= sv[i as int].remaining);
            assert(nc.deep_view() =~~= target[i as int]);
        }
        let ghost prev = new_state;
        let ghost ncg = nc;
        new_state.push(nc);
        proof {
            lemma_deep_view_push(prev, new_state, ncg);
            assert(target.take(i as int).push(target[i as int]) =~= target.take(i as int + 1));
        }
        i = i + 1;
    }
    proof {
        assert(target.take(state.len() as int) =~= target);
    }
    *state = new_state;
}

/// Runs the trigger automaton and the adverb heuristic over one sentence's
/// token stream, firing diagnostics into `out`.
///
/// The match state carries over between sentences: it is discarded only by
/// the contiguity rule, never reset here.
pub fn process_sentence(
    sentence: &Vec<String>,
    database: &Vec<DatabaseEntry>,
    dictionary: &Vec<DictionaryEntry>,
    state: &mut Vec<Candidate>,
    chapter_title: &String,
    chapter_number: i32,
    section_number: i32,
    paragraph_number: i32,
    direct_speech: bool,
    out: &mut Vec<Diagnostic>,
)
    ensures
        final(state).deep_view() == run_state(
            database.deep_view(),
            old(state).deep_view(),
            direct_speech,
            sentence.deep_view(),
        ),
        final(out).deep_view() == old(out).deep_view() + diags_of(
            run_fires(
                database.deep_view(),
                dictionary.deep_view(),
                old(state).deep_view(),
                direct_speech,
                sentence.deep_view(),
            ),
            sentence.deep_view(),
            LocationModel {
                chapter_title: chapter_title@,
                chapter_number: chapter_number as int,
                section_number: section_number as int,
                paragraph_number: paragraph_number as int,
            },
        ),
{
    let ghost db = database.deep_view();
    let ghost dict = dictionary.deep_view();
    let ghost words = sentence.deep_view();
    let ghost st0 = old(state).deep_view();
    let ghost out0 = old(out).deep_view();
    let ghost loc = LocationModel {
        chapter_title: chapter_title@,
        chapter_number: chapter_number as int,
        section_number: section_number as int,
        paragraph_number: paragraph_number as int,
    };

    proof {
        assert(words.take(0) =~= Seq::<Seq<char>>::empty());
        assert(out.deep_view() =~= out0 + diags_of(
            run_fires(db, dict, st0, direct_speech, words.take(0)),
            words,
            loc,
        ));
    }

    let mut k: usize = 0;
    while k < sentence.len()
        invariant
            k <= sentence.len(),
            db == database.deep_view(),
            dict == dictionary.deep_view(),
            words == sentence.deep_view(),
            words.len() == sentence.len(),
            loc == (LocationModel {
                chapter_title: chapter_title@,
                chapter_number: chapter_number as int,
                section_number: section_number as int,
                paragraph_number: paragraph_number as int,
            }),
            state.deep_view() == run_state(db, st0, direct_speech, words.take(k as int)),
            out.deep_view() == out0 + diags_of(
                run_fires(db, dict, st0, direct_speech, words.take(k as int)),
                words,
                loc,
            ),
        decreases sentence.len() - k,
    {
        let ghost stk = state.deep_view();
        let ghost w = words[k as int];
        let word = &sentence[k];
        proof {
            assert(word@ == w);
        }

        if is_blank_token(word.as_str()) {
            add_history_to_state(word, state);
            proof {
                assert(state.deep_view() == step_state(db, stk, direct_speech, w));
                lemma_run_snoc(db, dict, st0, direct_speech, words, k as int);
                assert(step_fires(db, dict, stk, direct_speech, w) =~= Seq::<FiredModel>::empty());
                lemma_diags_of_app(
                    run_fires(db, dict, st0, direct_speech, words.take(k as int)),
                    step_fires(db, dict, stk, direct_speech, w),
                    words,
                    loc,
                );
                assert(diags_of(step_fires(db, dict, stk, direct_speech, w), words, loc)
                    =~= Seq::<DiagnosticModel>::empty());
                assert(out.deep_view() =~~= out0 + diags_of(
                    run_fires(db, dict, st0, direct_speech, words.take(k as int + 1)),
                    words,
                    loc,
                ));
            }
        } else {
            let lowercase_word = lowercase(word.as_str());
            let ghost lw = lower_of(w);
            proof {
                assert(lowercase_word@ == lw);
            }

            // Register fresh candidates for every pattern starting at this
            // word (contraction patterns only, inside direct speech).
            match database_get(database, word) {
                Some(action_triggers) => {
                    let ghost ts = action_triggers.deep_view();
                    let ghost st_pre = state.deep_view();
                    proof {
                        assert(ts.take(0) =~= Seq::<TriggerModel>::empty());
                        assert(state.deep_view() =~~= st_pre + registered_candidates(
                            ts.take(0),
                            direct_speech,
                            lw,
                        ));
                    }
                    let mut t: usize = 0;
                    while t < action_triggers.len()
                        invariant
                            t <= action_triggers.len(),
                            ts == action_triggers.deep_view(),
                            ts.len() == action_triggers.len(),
                            lowercase_word@ == lw,
                            state.deep_view() == st_pre + registered_candidates(
                                ts.take(t as int),
                                direct_speech,
                                lw,
                            ),
                        decreases action_triggers.len() - t,
                    {
                        let at = &action_triggers[t];
                        proof {
                            assert(ts[t as int] == at.deep_view());
                            assert(ts.take(t as int + 1).drop_last() =~= ts.take(t as int));
                            assert(ts.take(t as int + 1).last() == ts[t as int]);
                        }
                        if !(direct_speech && skip_action_in_direct_speech(at.action)) {
                            let remaining = clone_strings(&at.trigger);
                            proof {
                                assert(remaining.deep_view() =~= at.trigger.deep_view());
                            }
                            let fresh = Candidate {
                                expected: lowercase_word.clone(),
                                action: at.action,
                                remaining,
                                history: Vec::new(),
                            };
                            proof {
                                assert(fresh.history.deep_view() =~= Seq::<Seq<char>>::empty());
                                assert(fresh.deep_view() =~~= (CandidateModel {
                                    expected: lw,
                                    action: ts[t as int].action,
                                    remaining: ts[t as int].trigger,
                                    history: Seq::empty(),
                                }));
                            }
                            let ghost prev = *state;
                            let ghost freshg = fresh;
                            state.push(fresh);
                            proof {
                                lemma_deep_view_push(prev, *state, freshg);
                                assert((st_pre + registered_candidates(
                                    ts.take(t as int),
                                    direct_speech,
                                    lw,
                                )).push(freshg.deep_view()) =~~= st_pre + registered_candidates(
                                    ts.take(t as int + 1),
                                    direct_speech,
                                    lw,
                                ));
                            }
                        }
                        proof {
                            assert(state.deep_view() =~~= st_pre + registered_candidates(
                                ts.take(t as int + 1),
                                direct_speech,
                                lw,
                            ));
                        }
                        t = t + 1;
                    }
                    proof {
                        assert(ts.take(action_triggers.len() as int) =~= ts);
                        assert(state.deep_view() == state_after_register(
                            db,
                            stk,
                            direct_speech,
                            w,
                        ));
                    }
                },
                None => {
                    proof {
                        assert(state.deep_view() == state_after_register(
                            db,
                            stk,
                            direct_speech,
                            w,
                        ));
                    }
                },
            }

            // Advance: exactly the candidates expecting this word survive
            // or fire; everything else dies, enforcing strict contiguity.
            let ghost st1 = state.deep_view();
            let ghost out_mid = out.deep_view();
            let mut new_state: Vec<Candidate> = Vec::new();
            proof {
                assert(st1.take(0) =~= Seq::<CandidateModel>::empty());
                assert(new_state.deep_view() =~~= advanced_state(st1.take(0), w, lw));
                assert(out.deep_view() =~~= out_mid + diags_of(
                    fired_matches(st1.take(0), w, lw),
                    words,
                    loc,
                ));
            }
            let mut j: usize = 0;
            while j < state.len()
                invariant
                    j <= state.len(),
                    st1 == state.deep_view(),
                    st1.len() == state.len(),
                    lowercase_word@ == lw,
                    words == sentence.deep_view(),
                    words.len() == sentence.len(),
                    k < words.len(),
                    w == words[k as int],
                    word@ == w,
                    loc == (LocationModel {
                        chapter_title: chapter_title@,
                        chapter_number: chapter_number as int,
                        section_number: section_number as int,
                        paragraph_number: paragraph_number as int,
                    }),
                    new_state.deep_view() == advanced_state(st1.take(j as int), w, lw),
                    out.deep_view() == out_mid + diags_of(
                        fired_matches(st1.take(j as int), w, lw),
                        words,
                        loc,
                    ),
                decreases state.len() - j,
            {
                let c = &state[j];
                proof {
                    assert(st1[j as int] == c.deep_view());
                    assert(st1.take(j as int + 1).drop_last() =~= st1.take(j as int));
                    assert(st1.take(j as int + 1).last() == st1[j as int]);
                }
                if c.expected == lowercase_word {
                    let mut history = clone_strings(&c.history);
                    history.push(word.clone());
                    proof {
                        assert(history.deep_view() =~= st1[j as int].history.push(w));
                    }
                    if c.remaining.len() == 0 {
                        let sentence_copy = clone_strings(sentence);
                        proof {
                            assert(sentence_copy.deep_view() =~= words);
                        }
                        let d = Diagnostic {
                            action: c.action,
                            chapter_title: chapter_title.clone(),
                            chapter_number,
                            section_number,
                            paragraph_number,
                            matched: history,
                            sentence: sentence_copy,
                        };
                        let ghost prev = *out;
                        let ghost dg = d;
                        out.push(d);
                        proof {
                            lemma_deep_view_push(prev, *out, dg);
                            assert(fired_matches(st1.take(j as int + 1), w, lw)
                                =~~= fired_matches(st1.take(j as int), w, lw).push(
                                FiredModel {
                                    action: st1[j as int].action,
                                    matched: st1[j as int].history.push(w),
                                },
                            ));
                            assert((out_mid + diags_of(
                                fired_matches(st1.take(j as int), w, lw),
                                words,
                                loc,
                            )).push(dg.deep_view()) =~~= out_mid + diags_of(
                                fired_matches(st1.take(j as int + 1), w, lw),
                                words,
                                loc,
                            ));
                        }
                    } else {
                        let expected_next = c.remaining[0].clone();
                        let mut rem = clone_strings(&c.remaining);
                        rem.remove(0);
                        proof {
                            assert(rem@ =~= c.remaining@.drop_first());
                            assert(rem.deep_view() =~= st1[j as int].remaining.drop_first());
                        }
                        let nc = Candidate {
                            expected: expected_next,
                            action: c.action,
                            remaining: rem,
                            history,
                        };
                        proof {
                            assert(nc.deep_view() =~~= (CandidateModel {
                                expected: st1[j as int].remaining[0],
                                action: st1[j as int].action,
                                remaining: st1[j as int].remaining.drop_first(),
                                history: st1[j as int].history.push(w),
                            }));
                        }
                        let ghost prev = new_state;
                        let ghost ncg = nc;
                        new_state.push(nc);
                        proof {
                            lemma_deep_view_push(prev, new_state, ncg);
                            assert(advanced_state(st1.take(j as int), w, lw).push(ncg.deep_view())
                                =~~= advanced_state(st1.take(j as int + 1), w, lw));
                        }
                    }
                }
                j = j + 1;
            }
            proof {
                assert(st1.take(state.len() as int) =~= st1);
            }
            *state = new_state;

            // The adverb heuristic, outside direct speech only.
            let ghost out_adv = out.deep_view();
            if !direct_speech && word_ends_in_ly(word.as_str()) {
                match dictionary_get(dictionary, word) {
                    Some(p) => {
                        if p == PartOfSpeech::Adverb {
                            let mut matched: Vec<String> = Vec::new();
                            matched.push(word.clone());
                            let sentence_copy = clone_strings(sentence);
                            proof {
                                assert(matched.deep_view() =~= seq![w]);
                                assert(sentence_copy.deep_view() =~= words);
                            }
                            out.push(
                                Diagnostic {
                                    action: Action::Adverb,
                                    chapter_title: chapter_title.clone(),
                                    chapter_number,
                                    section_number,
                                    paragraph_number,
                                    matched,
                                    sentence: sentence_copy,
                                },
                            );
                        }
                    },
                    None => {
                        let mut matched: Vec<String> = Vec::new();
                        matched.push(word.clone());
                        let sentence_copy = clone_strings(sentence);
                        proof {
                            assert(matched.deep_view() =~= seq![w]);
                            assert(sentence_copy.deep_view() =~= words);
                        }
                        out.push(
                            Diagnostic {
                                action: Action::PotentialAdverb,
                                chapter_title: chapter_title.clone(),
                                chapter_number,
                                section_number,
                                paragraph_number,
                                matched,
                                sentence: sentence_copy,
                            },
                        );
                    },
                }
            }
            proof {
                assert(out.deep_view() =~~= out_adv + diags_of(
                    adverb_fires(dict, direct_speech, w),
                    words,
                    loc,
                ));
                lemma_diags_of_app(fired_matches(st1, w, lw), adverb_fires(dict, direct_speech, w),
                    words, loc);
                assert(step_fires(db, dict, stk, direct_speech, w) == fired_matches(st1, w, lw)
                    + adverb_fires(dict, direct_speech, w));
                assert(out.deep_view() =~~= out_mid + diags_of(
                    step_fires(db, dict, stk, direct_speech, w),
                    words,
                    loc,
                ));
                lemma_run_snoc(db, dict, st0, direct_speech, words, k as int);
                lemma_diags_of_app(
                    run_fires(db, dict, st0, direct_speech, words.take(k as int)),
                    step_fires(db, dict, stk, direct_speech, w),
                    words,
                    loc,
                );
                assert(state.deep_view() == step_state(db, stk, direct_speech, w));
                assert(out.deep_view() =~~= out0 + diags_of(
                    run_fires(db, dict, st0, direct_speech, words.take(k as int + 1)),
                    words,
                    loc,
                ));
            }
        }
        k = k + 1;
    }
    proof {
        assert(words.take(sentence.len() as int) =~= words);
    }
}

} // verus!

verus! {

// ---------------------------------------------------------------------------
// Walking a whole document.
// ---------------------------------------------------------------------------

/// The engine's traversal state: running counters, the current chapter
/// title, and the in-flight match candidates.
#[verifier::ext_equal]
pub struct EngineState {
    pub chapter_number: int,
    pub section_number: int,
    pub paragraph_number: int,
    pub chapter_title: Seq<char>,
    pub candidates: Seq<CandidateModel>,
}

/// Counters start at 1, the title empty, no candidate in flight.
pub open spec fn initial_engine_state() -> EngineState {
    EngineState {
        chapter_number: 1,
        section_number: 1,
        paragraph_number: 1,
        chapter_title: Seq::empty(),
        candidates: Seq::empty(),
    }
}

/// The location the engine currently reports.
pub open spec fn location_of(st: EngineState) -> LocationModel {
    LocationModel {
        chapter_title: st.chapter_title,
        chapter_number: st.chapter_number,
        section_number: st.section_number,
        paragraph_number: st.paragraph_number,
    }
}

/// The traversal state after one document element.  Counters move on the
/// structural markers; the match candidates change only inside sentences
/// and direct speech, and in particular carry over between elements.
pub open spec fn element_state(
    db: Seq<DatabaseEntryModel>,
    st: EngineState,
    e: ElementModel,
) -> EngineState {
    match e {
        ElementModel::ChapterEnd => EngineState {
            chapter_number: st.chapter_number + 1,
            section_number: 1,
            paragraph_number: 1,
            chapter_title: st.chapter_title,
            candidates: st.candidates,
        },
        ElementModel::SectionEnd => EngineState {
            chapter_number: st.chapter_number,
            section_number: st.section_number + 1,
            paragraph_number: 1,
            chapter_title: st.chapter_title,
            candidates: st.candidates,
        },
        ElementModel::ParagraphEnd => EngineState {
            chapter_number: st.chapter_number,
            section_number: st.section_number,
            paragraph_number: st.paragraph_number + 1,
            chapter_title: st.chapter_title,
            candidates: st.candidates,
        },
        ElementModel::ChapterName(_) => st,
        ElementModel::ChapterTitle(t) => EngineState {
            chapter_number: st.chapter_number,
            section_number: st.section_number,
            paragraph_number: st.paragraph_number,
            chapter_title: t,
            candidates: st.candidates,
        },
        ElementModel::DirectSpeech(ws) => EngineState {
            chapter_number: st.chapter_number,
            section_number: st.section_number,
            paragraph_number: st.paragraph_number,
            chapter_title: st.chapter_title,
            candidates: run_state(db, st.candidates, true, ws),
        },
        ElementModel::Sentence(ws) => EngineState {
            chapter_number: st.chapter_number,
            section_number: st.section_number,
            paragraph_number: st.paragraph_number,
            chapter_title: st.chapter_title,
            candidates: run_state(db, st.candidates, false, ws),
        },
    }
}

/// The diagnostics one document element fires.
pub open spec fn element_diags(
    db: Seq<DatabaseEntryModel>,
    dict: Seq<DictionaryEntryModel>,
    st: EngineState,
    e: ElementModel,
) -> Seq<DiagnosticModel> {
    match e {
        ElementModel::DirectSpeech(ws) => diags_of(
            run_fires(db, dict, st.candidates, true, ws),
            ws,
            location_of(st),
        ),
        ElementModel::Sentence(ws) => diags_of(
            run_fires(db, dict, st.candidates, false, ws),
            ws,
            location_of(st),
        ),
        _ => Seq::empty(),
    }
}

/// The traversal state after a sequence of elements.
pub open spec fn run_elements_state(
    db: Seq<DatabaseEntryModel>,
    st: EngineState,
    elems: Seq<ElementModel>,
) -> EngineState
    decreases elems.len(),
{
    if elems.len() == 0 {
        st
    } else {
        run_elements_state(db, element_state(db, st, elems[0]), elems.drop_first())
    }
}

/// The diagnostics fired over a sequence of elements, in order.
pub open spec fn run_elements_diags(
    db: Seq<DatabaseEntryModel>,
    dict: Seq<DictionaryEntryModel>,
    st: EngineState,
    elems: Seq<ElementModel>,
) -> Seq<DiagnosticModel>
    decreases elems.len(),
{
    if elems.len() == 0 {
        Seq::empty()
    } else {
        element_diags(db, dict, st, elems[0]) + run_elements_diags(
            db,
            dict,
            element_state(db, st, elems[0]),
            elems.drop_first(),
        )
    }
}

/// Walking a document splits over concatenation of its elements.
proof fn lemma_run_elements_app(
    db: Seq<DatabaseEntryModel>,
    dict: Seq<DictionaryEntryModel>,
    st: EngineState,
    xs: Seq<ElementModel>,
    ys: Seq<ElementModel>,
)
    ensures
        run_elements_state(db, st, xs + ys) == run_elements_state(
            db,
            run_elements_state(db, st, xs),
            ys,
        ),
        run_elements_diags(db, dict, st, xs + ys) == run_elements_diags(db, dict, st, xs)
            + run_elements_diags(db, dict, run_elements_state(db, st, xs), ys),
    decreases xs.len(),
{
    if xs.len() == 0 {
        assert(xs + ys =~= ys);
        assert(run_elements_diags(db, dict, st, xs) + run_elements_diags(db, dict, st, ys)
            =~= run_elements_diags(db, dict, st, ys));
    } else {
        let st1 = element_state(db, st, xs[0]);
        assert((xs + ys)[0] == xs[0]);
        assert((xs + ys).drop_first() =~= xs.drop_first() + ys);
        lemma_run_elements_app(db, dict, st1, xs.drop_first(), ys);
        assert(run_elements_diags(db, dict, st, xs + ys) =~= run_elements_diags(db, dict, st, xs)
            + run_elements_diags(db, dict, run_elements_state(db, st, xs), ys));
    }
}

/// Extending a walk by one element steps the state and appends that
/// element's diagnostics.
proof fn lemma_run_elements_snoc(
    db: Seq<DatabaseEntryModel>,
    dict: Seq<DictionaryEntryModel>,
    st: EngineState,
    elems: Seq<ElementModel>,
    i: int,
)
    requires
        0 <= i < elems.len(),
    ensures
        run_elements_state(db, st, elems.take(i + 1)) == element_state(
            db,
            run_elements_state(db, st, elems.take(i)),
            elems[i],
        ),
        run_elements_diags(db, dict, st, elems.take(i + 1)) == run_elements_diags(
            db,
            dict,
            st,
            elems.take(i),
        ) + element_diags(db, dict, run_elements_state(db, st, elems.take(i)), elems[i]),
{
    let one = seq![elems[i]];
    assert(elems.take(i + 1) =~= elems.take(i) + one);
    lemma_run_elements_app(db, dict, st, elems.take(i), one);
    let stm = run_elements_state(db, st, elems.take(i));
    assert(one.len() == 1);
    assert(one[0] == elems[i]);
    let rest = one.drop_first();
    assert(rest =~= Seq::<ElementModel>::empty());
    assert(rest.len() == 0);
    let st2 = element_state(db, stm, elems[i]);
    assert(run_elements_state(db, stm, one) == run_elements_state(db, st2, rest));
    assert(run_elements_diags(db, dict, st2, rest) =~= Seq::<DiagnosticModel>::empty());
    assert(run_elements_diags(db, dict, stm, one) =~= element_diags(db, dict, stm, elems[i]));
}

/// The full analysis of a document: every diagnostic the trigger engine
/// fires, walking the elements in order from the initial state with the
/// static database and dictionary.
pub open spec fn spec_score(d: DocumentModel) -> Seq<DiagnosticModel> {
    run_elements_diags(spec_database(), spec_dictionary(), initial_engine_state(), d.elements)
}

/// Scoring is idempotent: each run starts from a fresh initial state and
/// the diagnostics are a function of the document model alone, so two
/// runs over the same model fire identical diagnostic sequences.
pub proof fn lemma_rescore_identical(
    d: DocumentModel,
    first: Seq<DiagnosticModel>,
    second: Seq<DiagnosticModel>,
)
    requires
        first == spec_score(d),
        second == spec_score(d),
    ensures
        first == second,
{
}

/// Walks the document and returns every diagnostic the trigger engine
/// fires, in document order.
///
/// The result is a function of the document alone: scoring the same
/// document again yields the same diagnostics.
pub fn score(document: &Document) -> (out: Vec<Diagnostic>)
    requires
        document.elements.len() < 0x7fff_ffff,
    ensures
        out.deep_view() == spec_score(document.deep_view()),
{
    let mut chapter_number: i32 = 1;
    let mut section_number: i32 = 1;
    let mut paragraph_number: i32 = 1;
    let mut chapter_title: String = String::new();
    let database = init_database();
    let dictionary = init_dictionary();

    let ghost db = spec_database();
    let ghost dict = spec_dictionary();
    let ghost elems = document.deep_view().elements;
    let ghost init = initial_engine_state();

    let mut state: Vec<Candidate> = Vec::new();
    let mut out: Vec<Diagnostic> = Vec::new();

    proof {
        assert(elems.take(0) =~= Seq::<ElementModel>::empty());
        assert(state.deep_view() =~= init.candidates);
        assert(chapter_title@ =~= init.chapter_title);
        assert(out.deep_view() =~= run_elements_diags(db, dict, init, elems.take(0)));
    }

    let mut i: usize = 0;
    while i < document.elements.len()
        invariant
            i <= document.elements.len(),
            document.elements.len() < 0x7fff_ffff,
            db == database.deep_view(),
            dict == dictionary.deep_view(),
            db == spec_database(),
            dict == spec_dictionary(),
            elems == document.deep_view().elements,
            elems.len() == document.elements.len(),
            init == initial_engine_state(),
            chapter_number as int == run_elements_state(db, init, elems.take(i as int)).chapter_number,
            section_number as int == run_elements_state(db, init, elems.take(i as int)).section_number,
            paragraph_number as int == run_elements_state(db, init, elems.take(i as int)).paragraph_number,
            chapter_title@ == run_elements_state(db, init, elems.take(i as int)).chapter_title,
            state.deep_view() == run_elements_state(db, init, elems.take(i as int)).candidates,
            chapter_number as int <= 1 + i as int,
            section_number as int <= 1 + i as int,
            paragraph_number as int <= 1 + i as int,
            1 <= chapter_number as int,
            1 <= section_number as int,
            1 <= paragraph_number as int,
            out.deep_view() == run_elements_diags(db, dict, init, elems.take(i as int)),
        decreases document.elements.len() - i,
    {
        let ghost est = run_elements_state(db, init, elems.take(i as int));
        proof {
            assert(elems[i as int] == document.elements[i as int].deep_view());
            lemma_run_elements_snoc(db, dict, init, elems, i as int);
        }
        match &document.elements[i] {
            DocumentElement::ChapterEnd => {
                chapter_number = chapter_number + 1;
                section_number = 1;
                paragraph_number = 1;
            },
            DocumentElement::SectionEnd => {
                section_number = section_number + 1;
                paragraph_number = 1;
            },
            DocumentElement::ParagraphEnd => {
                paragraph_number = paragraph_number + 1;
            },
            DocumentElement::ChapterName(_) => {},
            DocumentElement::ChapterTitle(this_chapter_title) => {
                chapter_title = this_chapter_title.clone();
            },
            DocumentElement::DirectSpeech(sentence) => {
                process_sentence(
                    sentence,
                    &database,
                    &dictionary,
                    &mut state,
                    &chapter_title,
                    chapter_number,
                    section_number,
                    paragraph_number,
                    true,
                    &mut out,
                );
            },
            DocumentElement::Sentence(sentence) => {
                process_sentence(
                    sentence,
                    &database,
                    &dictionary,
                    &mut state,
                    &chapter_title,
                    chapter_number,
                    section_number,
                    paragraph_number,
                    false,
                    &mut out,
                );
            },
        }
        i = i + 1;
    }
    proof {
        assert(elems.take(document.elements.len() as int) =~= elems);
    }
    out
}

// ---------------------------------------------------------------------------
// Rendering helpers for the diagnostic sink.
// ---------------------------------------------------------------------------

/// The rendered location of a diagnostic: the chapter title when there is
/// one, else a chapter number when the document has more than one chapter,
/// then section and paragraph numbers.
pub open spec fn spec_loc_string(
    title: Seq<char>,
    chapter: int,
    section: int,
    paragraph: int,
    number_of_chapters: int,
) -> Seq<char> {
    let prefix = if title.len() > 0 {
        title + ", "@
    } else if number_of_chapters > 1 {
        "Chapter "@ + dec_of(chapter) + ", "@
    } else {
        Seq::<char>::empty()
    };
    prefix + "Section "@ + dec_of(section) + ", "@ + "Paragraph "@ + dec_of(paragraph)
}

/// Renders the location part of a diagnostic line.
pub fn loc_string(
    chapter_title: &String,
    chapter_number: i32,
    section_number: i32,
    paragraph_number: i32,
    number_of_chapters: i32,
) -> (r: String)
    ensures
        r@ == spec_loc_string(
            chapter_title@,
            chapter_number as int,
            section_number as int,
            paragraph_number as int,
            number_of_chapters as int,
        ),
{
    let mut out = String::new();
    if !chapter_title.as_str().is_empty() {
        out.append(chapter_title.as_str());
        out.append(", ");
    } else if number_of_chapters > 1 {
        out.append("Chapter ");
        let c = i32_dec_string(chapter_number);
        out.append(c.as_str());
        out.append(", ");
    }
    out.append("Section ");
    let s = i32_dec_string(section_number);
    out.append(s.as_str());
    out.append(", ");
    out.append("Paragraph ");
    let p = i32_dec_string(paragraph_number);
    out.append(p.as_str());
    assert(out@ =~= spec_loc_string(
        chapter_title@,
        chapter_number as int,
        section_number as int,
        paragraph_number as int,
        number_of_chapters as int,
    ));
    out
}

/// Joins a sentence's tokens back into the text they came from.
pub fn sentence_string(words: &Vec<String>) -> (r: String)
    ensures
        r@ == concat_seqs(words.deep_view()),
{
    let ghost wv = words.deep_view();
    let mut r = String::new();
    proof {
        assert(r@ =~= concat_seqs(wv.take(0)));
    }
    let mut i: usize = 0;
    while i < words.len()
        invariant
            i <= words.len(),
            wv == words.deep_view(),
            wv.len() == words.len(),
            r@ == concat_seqs(wv.take(i as int)),
        decreases words.len() - i,
    {
        r.append(words[i].as_str());
        proof {
            assert(wv.take(i as int + 1).drop_last() =~= wv.take(i as int));
            assert(r@ =~= concat_seqs(wv.take(i as int + 1)));
        }
        i = i + 1;
    }
    proof {
        assert(wv.take(words.len() as int) =~= wv);
    }
    r
}

} // verus!

verus! {

// ---------------------------------------------------------------------------
// Laws of the trigger automaton.
// ---------------------------------------------------------------------------

/// Advancing and firing are element-wise: they distribute over
/// concatenation of the candidate list.
proof fn lemma_advance_app(a: Seq<CandidateModel>, b: Seq<CandidateModel>, w: Seq<char>, lw: Seq<char>)
    ensures
        advanced_state(a + b, w, lw) == advanced_state(a, w, lw) + advanced_state(b, w, lw),
        fired_matches(a + b, w, lw) == fired_matches(a, w, lw) + fired_matches(b, w, lw),
    decreases b.len(),
{
    if b.len() == 0 {
        assert(a + b =~= a);
        assert(advanced_state(a, w, lw) + advanced_state(b, w, lw) =~= advanced_state(a, w, lw));
        assert(fired_matches(a, w, lw) + fired_matches(b, w, lw) =~= fired_matches(a, w, lw));
    } else {
        assert((a + b).drop_last() =~= a + b.drop_last());
        assert((a + b).last() == b.last());
        lemma_advance_app(a, b.drop_last(), w, lw);
        assert(advanced_state(a + b, w, lw) =~= advanced_state(a, w, lw) + advanced_state(
            b,
            w,
            lw,
        ));
        assert(fired_matches(a + b, w, lw) =~= fired_matches(a, w, lw) + fired_matches(b, w, lw));
    }
}

/// A candidate list in which nothing expects `lw` neither advances nor
/// fires.
proof fn lemma_advance_no_match(st: Seq<CandidateModel>, w: Seq<char>, lw: Seq<char>)
    requires
        forall|i: int| 0 <= i < st.len() ==> #[trigger] st[i].expected != lw,
    ensures
        advanced_state(st, w, lw) == Seq::<CandidateModel>::empty(),
        fired_matches(st, w, lw) == Seq::<FiredModel>::empty(),
    decreases st.len(),
{
    if st.len() == 0 {
    } else {
        assert(st.last() == st[st.len() - 1]);
        lemma_advance_no_match(st.drop_last(), w, lw);
    }
}

/// A whitespace token is transparent to matching: it fires nothing, and
/// every in-flight candidate survives unchanged but for the token joining
/// its verbatim history.
pub proof fn lemma_whitespace_transparent(
    db: Seq<DatabaseEntryModel>,
    dict: Seq<DictionaryEntryModel>,
    st: Seq<CandidateModel>,
    direct_speech: bool,
    w: Seq<char>,
)
    requires
        is_blank(w),
    ensures
        step_fires(db, dict, st, direct_speech, w) == Seq::<FiredModel>::empty(),
        step_state(db, st, direct_speech, w).len() == st.len(),
        forall|i: int|
            0 <= i < st.len() ==> #[trigger] step_state(db, st, direct_speech, w)[i]
                == (CandidateModel {
                expected: st[i].expected,
                action: st[i].action,
                remaining: st[i].remaining,
                history: st[i].history.push(w),
            }),
{
}

/// Strict contiguity: when a non-whitespace word arrives that no
/// in-flight candidate expects and that starts no pattern of its own,
/// every in-flight candidate dies and no trigger fires; at most the
/// adverb heuristic may still report the word itself.
pub proof fn lemma_interposed_word_kills(
    db: Seq<DatabaseEntryModel>,
    dict: Seq<DictionaryEntryModel>,
    st: Seq<CandidateModel>,
    direct_speech: bool,
    w: Seq<char>,
)
    requires
        !is_blank(w),
        db_lookup(db, w) is None,
        forall|i: int| 0 <= i < st.len() ==> #[trigger] st[i].expected != lower_of(w),
    ensures
        step_state(db, st, direct_speech, w) == Seq::<CandidateModel>::empty(),
        step_fires(db, dict, st, direct_speech, w) == adverb_fires(dict, direct_speech, w),
{
    lemma_advance_no_match(st, w, lower_of(w));
    assert(Seq::<FiredModel>::empty() + adverb_fires(dict, direct_speech, w) =~= adverb_fires(
        dict,
        direct_speech,
        w,
    ));
}

/// A contiguous match fires: when a non-whitespace word arrives that an
/// in-flight candidate expects as its last required word, that
/// candidate's trigger fires, with the verbatim history closed by the
/// word itself.
pub proof fn lemma_contiguous_match_fires(
    db: Seq<DatabaseEntryModel>,
    dict: Seq<DictionaryEntryModel>,
    st: Seq<CandidateModel>,
    direct_speech: bool,
    w: Seq<char>,
    i: int,
)
    requires
        !is_blank(w),
        0 <= i < st.len(),
        st[i].expected == lower_of(w),
        st[i].remaining.len() == 0,
    ensures
        step_fires(db, dict, st, direct_speech, w).contains(
            FiredModel { action: st[i].action, matched: st[i].history.push(w) },
        ),
{
    let lw = lower_of(w);
    let fire = FiredModel { action: st[i].action, matched: st[i].history.push(w) };
    assert(st.take(i + 1).drop_last() =~= st.take(i));
    assert(st.take(i + 1).last() == st[i]);
    assert(st.take(i + 1) + st.skip(i + 1) =~= st);
    lemma_advance_app(st.take(i + 1), st.skip(i + 1), w, lw);
    assert(fired_matches(st.take(i + 1), w, lw).last() == fire);
    let all = fired_matches(st, w, lw);
    assert(all.contains(fire)) by {
        let k = fired_matches(st.take(i + 1), w, lw).len() - 1;
        assert(all[k] == fire);
    }
    let st1 = state_after_register(db, st, direct_speech, w);
    match db_lookup(db, w) {
        Some(ts) => {
            lemma_advance_app(st, registered_candidates(ts, direct_speech, lw), w, lw);
            let j = choose|j: int| 0 <= j < all.len() && all[j] == fire;
            assert(fired_matches(st1, w, lw)[j] == fire);
            assert(step_fires(db, dict, st, direct_speech, w)[j] == fire);
        },
        None => {
            let j = choose|j: int| 0 <= j < all.len() && all[j] == fire;
            assert(step_fires(db, dict, st, direct_speech, w)[j] == fire);
        },
    }
}

/// Inside direct speech only contraction patterns register.
proof fn lemma_registered_contraction_only(ts: Seq<TriggerModel>, lw: Seq<char>)
    ensures
        forall|i: int|
            0 <= i < registered_candidates(ts, true, lw).len() ==> #[trigger] registered_candidates(
                ts,
                true,
                lw,
            )[i].action == Action::Contraction,
    decreases ts.len(),
{
    if ts.len() == 0 {
    } else {
        lemma_registered_contraction_only(ts.drop_last(), lw);
    }
}

/// Advancing and firing keep each candidate's action.
proof fn lemma_advance_contraction_only(st: Seq<CandidateModel>, w: Seq<char>, lw: Seq<char>)
    requires
        forall|i: int| 0 <= i < st.len() ==> #[trigger] st[i].action == Action::Contraction,
    ensures
        forall|i: int|
            0 <= i < advanced_state(st, w, lw).len() ==> #[trigger] advanced_state(st, w, lw)[i].action
                == Action::Contraction,
        forall|i: int|
            0 <= i < fired_matches(st, w, lw).len() ==> #[trigger] fired_matches(st, w, lw)[i].action
                == Action::Contraction,
    decreases st.len(),
{
    if st.len() == 0 {
    } else {
        assert(st.last() == st[st.len() - 1]);
        assert(forall|i: int|
            0 <= i < st.drop_last().len() ==> #[trigger] st.drop_last()[i].action
                == Action::Contraction);
        lemma_advance_contraction_only(st.drop_last(), w, lw);
    }
}

/// One direct-speech token: with only contraction candidates in flight,
/// everything it fires is a missed contraction, and only contraction
/// candidates remain in flight.
pub proof fn lemma_direct_speech_step_contraction(
    db: Seq<DatabaseEntryModel>,
    dict: Seq<DictionaryEntryModel>,
    st: Seq<CandidateModel>,
    w: Seq<char>,
)
    requires
        forall|i: int| 0 <= i < st.len() ==> #[trigger] st[i].action == Action::Contraction,
    ensures
        forall|i: int|
            0 <= i < step_fires(db, dict, st, true, w).len() ==> #[trigger] step_fires(
                db,
                dict,
                st,
                true,
                w,
            )[i].action == Action::Contraction,
        forall|i: int|
            0 <= i < step_state(db, st, true, w).len() ==> #[trigger] step_state(db, st, true, w)[i].action
                == Action::Contraction,
{
    if is_blank(w) {
        lemma_whitespace_transparent(db, dict, st, true, w);
    } else {
        let lw = lower_of(w);
        let st1 = state_after_register(db, st, true, w);
        match db_lookup(db, w) {
            Some(ts) => {
                lemma_registered_contraction_only(ts, lw);
                assert(forall|i: int|
                    0 <= i < st1.len() ==> #[trigger] st1[i].action == Action::Contraction);
            },
            None => {},
        }
        lemma_advance_contraction_only(st1, w, lw);
    }
}

/// A whole direct-speech span never reports filtering, beginnings, weak
/// immediacy, adverbs, potential adverbs or subjective adjectives: with
/// only contraction candidates carried in, every diagnostic it fires is a
/// missed contraction, and only contraction candidates are carried out.
pub proof fn lemma_direct_speech_only_contraction(
    db: Seq<DatabaseEntryModel>,
    dict: Seq<DictionaryEntryModel>,
    st: Seq<CandidateModel>,
    words: Seq<Seq<char>>,
)
    requires
        forall|i: int| 0 <= i < st.len() ==> #[trigger] st[i].action == Action::Contraction,
    ensures
        forall|i: int|
            0 <= i < run_fires(db, dict, st, true, words).len() ==> #[trigger] run_fires(
                db,
                dict,
                st,
                true,
                words,
            )[i].action == Action::Contraction,
        forall|i: int|
            0 <= i < run_state(db, st, true, words).len() ==> #[trigger] run_state(
                db,
                st,
                true,
                words,
            )[i].action == Action::Contraction,
    decreases words.len(),
{
    if words.len() == 0 {
    } else {
        lemma_direct_speech_step_contraction(db, dict, st, words[0]);
        let st1 = step_state(db, st, true, words[0]);
        lemma_direct_speech_only_contraction(db, dict, st1, words.drop_first());
    }
}

} // verus!

verus! {

/// An advanced candidate stands in the advanced state: when the
/// candidate at `i` expects `lw` and has continuation words left, its
/// one-step advance is present after the word arrives.
proof fn lemma_advanced_candidate_present(
    st: Seq<CandidateModel>,
    w: Seq<char>,
    lw: Seq<char>,
    i: int,
)
    requires
        0 <= i < st.len(),
        st[i].expected == lw,
        st[i].remaining.len() > 0,
    ensures
        advanced_state(st, w, lw).contains(
            CandidateModel {
                expected: st[i].remaining[0],
                action: st[i].action,
                remaining: st[i].remaining.drop_first(),
                history: st[i].history.push(w),
            },
        ),
{
    let c = CandidateModel {
        expected: st[i].remaining[0],
        action: st[i].action,
        remaining: st[i].remaining.drop_first(),
        history: st[i].history.push(w),
    };
    assert(st.take(i + 1).drop_last() =~= st.take(i));
    assert(st.take(i + 1).last() == st[i]);
    assert(st.take(i + 1) + st.skip(i + 1) =~= st);
    lemma_advance_app(st.take(i + 1), st.skip(i + 1), w, lw);
    assert(advanced_state(st.take(i + 1), w, lw).last() == c);
    let k = advanced_state(st.take(i + 1), w, lw).len() - 1;
    assert(advanced_state(st, w, lw)[k] == c);
}

/// The tokens of a stream that are not whitespace-only, in order.
pub open spec fn solid_tokens(words: Seq<Seq<char>>) -> Seq<Seq<char>>
    decreases words.len(),
{
    if words.len() == 0 {
        Seq::empty()
    } else {
        let rest = solid_tokens(words.drop_last());
        if is_blank(words.last()) {
            rest
        } else {
            rest.push(words.last())
        }
    }
}

/// Peeling the first token off the non-whitespace subsequence.
proof fn lemma_solid_tokens_first(words: Seq<Seq<char>>)
    requires
        words.len() > 0,
    ensures
        solid_tokens(words) == if is_blank(words[0]) {
            solid_tokens(words.drop_first())
        } else {
            seq![words[0]] + solid_tokens(words.drop_first())
        },
    decreases words.len(),
{
    if words.len() == 1 {
        assert(words.drop_first() =~= Seq::<Seq<char>>::empty());
        assert(words.drop_last() =~= Seq::<Seq<char>>::empty());
        assert(words.last() == words[0]);
        if is_blank(words[0]) {
            assert(solid_tokens(words) =~= solid_tokens(words.drop_first()));
        } else {
            assert(solid_tokens(words) =~= seq![words[0]] + solid_tokens(words.drop_first()));
        }
    } else {
        assert(words.drop_last().len() > 0);
        assert(words.drop_last()[0] == words[0]);
        lemma_solid_tokens_first(words.drop_last());
        assert(words.drop_last().drop_first() =~= words.drop_first().drop_last());
        assert(words.drop_first().last() == words.last());
        assert(words.drop_first().len() > 0);
        if !is_blank(words[0]) && !is_blank(words.last()) {
            assert((seq![words[0]] + solid_tokens(words.drop_first().drop_last())).push(
                words.last(),
            ) =~= seq![words[0]] + solid_tokens(words.drop_first().drop_last()).push(
                words.last(),
            ));
        }
    }
}

/// The composite contiguity law, firing direction: a token stream whose
/// non-whitespace tokens spell out one in-flight candidate's expected
/// word and continuation words in order — nothing else interposed, with
/// whitespace-only tokens freely interleaved and ignored — fires that
/// candidate's trigger, with the verbatim tokens, whitespace included,
/// joining its history.  (Conversely, by
/// [`lemma_interposed_word_kills`], any non-whitespace token that no
/// candidate expects kills every in-flight candidate at once.)
pub proof fn lemma_candidate_run_completes(
    db: Seq<DatabaseEntryModel>,
    dict: Seq<DictionaryEntryModel>,
    st: Seq<CandidateModel>,
    direct_speech: bool,
    i: int,
    words: Seq<Seq<char>>,
)
    requires
        0 <= i < st.len(),
        words.len() > 0,
        !is_blank(words.last()),
        solid_tokens(words).len() == st[i].remaining.len() + 1,
        lower_of(solid_tokens(words)[0]) == st[i].expected,
        forall|j: int|
            1 <= j < solid_tokens(words).len() ==> lower_of(
                #[trigger] solid_tokens(words)[j],
            ) == st[i].remaining[j - 1],
    ensures
        run_fires(db, dict, st, direct_speech, words).contains(
            FiredModel { action: st[i].action, matched: st[i].history + words },
        ),
    decreases words.len(),
{
    let w = words[0];
    let fire = FiredModel { action: st[i].action, matched: st[i].history + words };
    lemma_solid_tokens_first(words);
    if is_blank(w) {
        lemma_whitespace_transparent(db, dict, st, direct_speech, w);
        let st2 = step_state(db, st, direct_speech, w);
        assert(st2[i] == (CandidateModel {
            expected: st[i].expected,
            action: st[i].action,
            remaining: st[i].remaining,
            history: st[i].history.push(w),
        }));
        if words.len() == 1 {
            assert(words.last() == words[0]);
            assert(false);
        }
        let rest = words.drop_first();
        assert(rest.last() == words.last());
        lemma_candidate_run_completes(db, dict, st2, direct_speech, i, rest);
        let fire_rec = FiredModel { action: st2[i].action, matched: st2[i].history + rest };
        assert(st2[i].history + rest =~= st[i].history + words);
        assert(fire_rec =~~= fire);
        let f1 = step_fires(db, dict, st, direct_speech, w);
        let f2 = run_fires(db, dict, st2, direct_speech, rest);
        assert(run_fires(db, dict, st, direct_speech, words) == f1 + f2);
        let j = choose|j: int| 0 <= j < f2.len() && f2[j] == fire;
        assert((f1 + f2)[f1.len() + j] == fire);
    } else {
        assert(solid_tokens(words) == seq![w] + solid_tokens(words.drop_first()));
        assert(solid_tokens(words)[0] == w);
        let lw = lower_of(w);
        let st1 = state_after_register(db, st, direct_speech, w);
        assert(st1[i] == st[i]);
        let st2 = step_state(db, st, direct_speech, w);
        let f1 = step_fires(db, dict, st, direct_speech, w);
        let rest = words.drop_first();
        let f2 = run_fires(db, dict, st2, direct_speech, rest);
        assert(run_fires(db, dict, st, direct_speech, words) == f1 + f2);
        if st[i].remaining.len() == 0 {
            if rest.len() > 0 {
                assert(rest.last() == words.last());
                assert(solid_tokens(rest).len() >= 1);
                assert(false);
            }
            assert(words.len() == 1);
            lemma_contiguous_match_fires(db, dict, st, direct_speech, w, i);
            let fired = FiredModel { action: st[i].action, matched: st[i].history.push(w) };
            assert(words =~= seq![w]);
            assert(st[i].history.push(w) =~= st[i].history + words);
            assert(fired =~~= fire);
            let j = choose|j: int| 0 <= j < f1.len() && f1[j] == fire;
            assert((f1 + f2)[j] == fire);
        } else {
            let c = CandidateModel {
                expected: st[i].remaining[0],
                action: st[i].action,
                remaining: st[i].remaining.drop_first(),
                history: st[i].history.push(w),
            };
            lemma_advanced_candidate_present(st1, w, lw, i);
            assert(st2.contains(c));
            let k = choose|k: int| 0 <= k < st2.len() && st2[k] == c;
            assert(solid_tokens(rest).len() == st[i].remaining.len());
            if rest.len() == 0 {
                assert(solid_tokens(rest).len() == 0);
                assert(false);
            }
            assert(rest.last() == words.last());
            assert(lower_of(solid_tokens(rest)[0]) == c.expected) by {
                assert(solid_tokens(words)[1] == solid_tokens(rest)[0]);
            }
            assert(forall|j: int|
                1 <= j < solid_tokens(rest).len() ==> lower_of(
                    #[trigger] solid_tokens(rest)[j],
                ) == c.remaining[j - 1]) by {
                assert(forall|j: int|
                    1 <= j < solid_tokens(rest).len() ==> solid_tokens(rest)[j] == solid_tokens(
                        words,
                    )[j + 1]);
                assert(forall|j: int|
                    1 <= j < solid_tokens(rest).len() ==> c.remaining[j - 1] == st[i].remaining[j]);
            }
            lemma_candidate_run_completes(db, dict, st2, direct_speech, k, rest);
            let fire_rec = FiredModel { action: c.action, matched: c.history + rest };
            assert(c.history + rest =~= st[i].history + words);
            assert(fire_rec =~~= fire);
            let j = choose|j: int| 0 <= j < f2.len() && f2[j] == fire;
            assert((f1 + f2)[f1.len() + j] == fire);
        }
    }
}

} // verus!
