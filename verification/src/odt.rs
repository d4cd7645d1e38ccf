use vstd::prelude::*;

use crate::document::{
    chapter_end_count, lemma_deep_view_app, lemma_deep_view_push, Document, DocumentElement,
    DocumentModel, ElementModel, ParseError, ParseErrorModel,
};
use crate::text::{concat_seqs, is_blank, is_blank_token, split_words, trim_of, trim_str, word_bounds_of};

verus! {

// ---------------------------------------------------------------------------
// The style-annotated intermediate stream.
// ---------------------------------------------------------------------------

/// Alignment of a paragraph, resolved from its named style.
#[derive(Clone, Copy, PartialEq, Eq, Structural, Debug)]
pub enum TextAlign {
    Left,
    Centre,
}

/// The resolved properties of a named paragraph style.
#[derive(Clone, Copy, PartialEq, Eq, Structural, Debug)]
pub struct ParagraphStyleODT {
    pub begins_in_page_break: bool,
    pub center_aligned: bool,
}

/// A named text style.  The source format declares them alongside
/// paragraph styles; none of their properties matters to extraction, so
/// the record is empty.
#[derive(Clone, Copy, PartialEq, Eq, Structural, Debug)]
pub struct TextStyleODT {}

/// One element of the style-annotated stream the resolver hands to the
/// structural reconstructor.
#[derive(Debug, PartialEq)]
pub enum DocumentElementODT {
    ParagraphStyle(TextAlign),
    ParagraphEnd,
    ChapterEnd,
    Text(String),
}

/// The mathematical shape of a [`DocumentElementODT`].
pub enum OdtElementModel {
    ParagraphStyle(TextAlign),
    ParagraphEnd,
    ChapterEnd,
    Text(Seq<char>),
}

impl DeepView for DocumentElementODT {
    type V = OdtElementModel;

    open spec fn deep_view(&self) -> OdtElementModel {
        match self {
            DocumentElementODT::ParagraphStyle(a) => OdtElementModel::ParagraphStyle(*a),
            DocumentElementODT::ParagraphEnd => OdtElementModel::ParagraphEnd,
            DocumentElementODT::ChapterEnd => OdtElementModel::ChapterEnd,
            DocumentElementODT::Text(t) => OdtElementModel::Text(t@),
        }
    }
}

// ---------------------------------------------------------------------------
// Section breaks.
// ---------------------------------------------------------------------------

/// Whether a paragraph's text is a section-break marker: exactly `* * *`
/// or `#` once surrounding whitespace is trimmed.
pub open spec fn is_section_break(text: Seq<char>) -> bool {
    trim_of(text) == "* * *"@ || trim_of(text) == "#"@
}

/// Decides [`is_section_break`] on a paragraph's accumulated text.
pub fn paragraph_is_section_break(line: &String) -> (r: bool)
    ensures
        r == is_section_break(line@),
{
    let trimmed = trim_str(line.as_str()).to_owned();
    let stars = String::from_str("* * *");
    let hash = String::from_str("#");
    trimmed == stars || trimmed == hash
}

// ---------------------------------------------------------------------------
// The paragraph segmenter.
// ---------------------------------------------------------------------------

/// The opening typographic single quote that starts direct speech.
pub open spec fn quote_open() -> Seq<char> {
    "‘"@
}

/// The closing typographic single quote that ends direct speech.
pub open spec fn quote_close() -> Seq<char> {
    "’"@
}

/// Whether a token is a sentence terminator.
pub open spec fn is_terminator(w: Seq<char>) -> bool {
    w == "."@ || w == "!"@ || w == "?"@ || w == "…"@
}

/// The segmenter's traversal state: the elements emitted so far, the
/// tokens buffered for the current sentence, and whether the walk stands
/// inside direct speech.
#[verifier::ext_equal]
pub struct SegmenterState {
    pub out: Seq<ElementModel>,
    pub sentence: Seq<Seq<char>>,
    pub direct_speech: bool,
}

/// The segmenter's starting state.
pub open spec fn initial_segmenter_state() -> SegmenterState {
    SegmenterState { out: Seq::empty(), sentence: Seq::empty(), direct_speech: false }
}

/// One token of the segmenter walk: leading whitespace is dropped, an
/// opening quote only toggles direct speech, a closing quote emits the
/// buffer as direct speech, a sentence terminator outside direct speech
/// joins the buffer and emits it as a sentence, and every other token is
/// buffered.
pub open spec fn seg_step(st: SegmenterState, w: Seq<char>) -> SegmenterState {
    if is_blank(w) && st.sentence.len() == 0 {
        st
    } else if w == quote_open() {
        SegmenterState { out: st.out, sentence: st.sentence, direct_speech: true }
    } else if w == quote_close() && st.direct_speech {
        SegmenterState {
            out: st.out.push(ElementModel::DirectSpeech(st.sentence)),
            sentence: Seq::empty(),
            direct_speech: false,
        }
    } else if is_terminator(w) && !st.direct_speech {
        SegmenterState {
            out: st.out.push(ElementModel::Sentence(st.sentence.push(w))),
            sentence: Seq::empty(),
            direct_speech: st.direct_speech,
        }
    } else {
        SegmenterState {
            out: st.out,
            sentence: st.sentence.push(w),
            direct_speech: st.direct_speech,
        }
    }
}

/// The segmenter state after a whole token stream.
pub open spec fn run_seg(st: SegmenterState, tokens: Seq<Seq<char>>) -> SegmenterState
    decreases tokens.len(),
{
    if tokens.len() == 0 {
        st
    } else {
        run_seg(seg_step(st, tokens[0]), tokens.drop_first())
    }
}

/// Leftover buffered tokens flush as a final sentence; every paragraph
/// ends with a `ParagraphEnd` marker.
pub open spec fn seg_finish(st: SegmenterState) -> Seq<ElementModel> {
    let flushed = if st.sentence.len() > 0 {
        st.out.push(ElementModel::Sentence(st.sentence))
    } else {
        st.out
    };
    flushed.push(ElementModel::ParagraphEnd)
}

/// The elements one paragraph's text contributes to the document: its
/// Unicode word-boundary tokens, segmented into sentences and
/// direct-speech spans, closed by a `ParagraphEnd`.
pub open spec fn spec_parse_paragraph(text: Seq<char>) -> Seq<ElementModel> {
    seg_finish(run_seg(initial_segmenter_state(), word_bounds_of(text)))
}

/// Segmenting splits over concatenation of the token stream.
proof fn lemma_run_seg_app(st: SegmenterState, xs: Seq<Seq<char>>, ys: Seq<Seq<char>>)
    ensures
        run_seg(st, xs + ys) == run_seg(run_seg(st, xs), ys),
    decreases xs.len(),
{
    if xs.len() == 0 {
        assert(xs + ys =~= ys);
    } else {
        assert((xs + ys)[0] == xs[0]);
        assert((xs + ys).drop_first() =~= xs.drop_first() + ys);
        lemma_run_seg_app(seg_step(st, xs[0]), xs.drop_first(), ys);
    }
}

/// Extending the token stream by one token steps the segmenter once.
proof fn lemma_run_seg_snoc(st: SegmenterState, tokens: Seq<Seq<char>>, i: int)
    requires
        0 <= i < tokens.len(),
    ensures
        run_seg(st, tokens.take(i + 1)) == seg_step(run_seg(st, tokens.take(i)), tokens[i]),
{
    let one = seq![tokens[i]];
    assert(tokens.take(i + 1) =~= tokens.take(i) + one);
    lemma_run_seg_app(st, tokens.take(i), one);
    let stm = run_seg(st, tokens.take(i));
    assert(one.len() == 1);
    assert(one[0] == tokens[i]);
    let rest = one.drop_first();
    assert(rest =~= Seq::<Seq<char>>::empty());
    assert(rest.len() == 0);
    assert(run_seg(stm, one) == run_seg(seg_step(stm, tokens[i]), rest));
}

/// Splits one paragraph's text into sentences and direct-speech spans,
/// closed by a `ParagraphEnd` marker.
pub fn parse_paragraph(paragraph: &String) -> (out: Vec<DocumentElement>)
    ensures
        out.deep_view() == spec_parse_paragraph(paragraph@),
{
    let words = split_words(paragraph.as_str());
    let ghost toks = word_bounds_of(paragraph@);
    let ghost init = initial_segmenter_state();

    let open_quote = String::from_str("‘");
    let close_quote = String::from_str("’");
    let full_stop = String::from_str(".");
    let bang = String::from_str("!");
    let question = String::from_str("?");
    let ellipsis = String::from_str("…");

    let mut out: Vec<DocumentElement> = Vec::new();
    let mut sentence: Vec<String> = Vec::new();
    let mut direct_speech: bool = false;

    proof {
        assert(toks.take(0) =~= Seq::<Seq<char>>::empty());
        assert(out.deep_view() =~= init.out);
        assert(sentence.deep_view() =~= init.sentence);
    }

    let mut i: usize = 0;
    while i < words.len()
        invariant
            i <= words.len(),
            toks == word_bounds_of(paragraph@),
            words.deep_view() == toks,
            toks.len() == words.len(),
            init == initial_segmenter_state(),
            open_quote@ == quote_open(),
            close_quote@ == quote_close(),
            full_stop@ == "."@,
            bang@ == "!"@,
            question@ == "?"@,
            ellipsis@ == "…"@,
            out.deep_view() == run_seg(init, toks.take(i as int)).out,
            sentence.deep_view() == run_seg(init, toks.take(i as int)).sentence,
            direct_speech == run_seg(init, toks.take(i as int)).direct_speech,
        decreases words.len() - i,
    {
        let ghost stk = run_seg(init, toks.take(i as int));
        let word = &words[i];
        proof {
            assert(word@ == toks[i as int]);
            lemma_run_seg_snoc(init, toks, i as int);
        }
        if is_blank_token(word.as_str()) && sentence.len() == 0 {
            proof {
                assert(sentence.deep_view().len() == 0);
            }
        } else if *word == open_quote {
            direct_speech = true;
        } else if *word == close_quote && direct_speech {
            let finished = sentence;
            sentence = Vec::new();
            let e = DocumentElement::DirectSpeech(finished);
            let ghost prev = out;
            let ghost eg = e;
            out.push(e);
            proof {
                lemma_deep_view_push(prev, out, eg);
                assert(sentence.deep_view() =~= Seq::<Seq<char>>::empty());
            }
            direct_speech = false;
        } else if (*word == full_stop || *word == bang || *word == question || *word == ellipsis)
            && !direct_speech {
            sentence.push(word.clone());
            proof {
                assert(sentence.deep_view() =~= stk.sentence.push(toks[i as int]));
            }
            let finished = sentence;
            sentence = Vec::new();
            let e = DocumentElement::Sentence(finished);
            let ghost prev = out;
            let ghost eg = e;
            out.push(e);
            proof {
                lemma_deep_view_push(prev, out, eg);
                assert(sentence.deep_view() =~= Seq::<Seq<char>>::empty());
            }
        } else {
            sentence.push(word.clone());
            proof {
                assert(sentence.deep_view() =~= stk.sentence.push(toks[i as int]));
            }
        }
        i = i + 1;
    }
    proof {
        assert(toks.take(words.len() as int) =~= toks);
    }

    if sentence.len() > 0 {
        let finished = sentence;
        let e = DocumentElement::Sentence(finished);
        let ghost prev = out;
        let ghost eg = e;
        out.push(e);
        proof {
            lemma_deep_view_push(prev, out, eg);
        }
    }
    let ghost prev = out;
    out.push(DocumentElement::ParagraphEnd);
    proof {
        lemma_deep_view_push(prev, out, DocumentElement::ParagraphEnd);
        assert(out.deep_view() =~= spec_parse_paragraph(paragraph@));
    }
    out
}

} // verus!

verus! {

// ---------------------------------------------------------------------------
// The style resolver.
// ---------------------------------------------------------------------------

/// The markup events that matter to extraction, with their attribute
/// payloads already read out as plain values.
#[derive(Debug, PartialEq)]
pub enum MarkupEvent {
    /// A style definition opens; it becomes the current style.
    StyleStart { name: Option<String>, family: Option<String> },
    /// A self-closed paragraph-properties declaration inside the current
    /// style definition.
    ParagraphProperties { text_align: Option<String>, break_before: Option<String> },
    /// A paragraph opens, possibly carrying a style reference.
    ParagraphStart { style: Option<String> },
    /// A paragraph closes.
    ParagraphEnd,
    /// A run of character data.
    Text(String),
}

/// The mathematical shape of a [`MarkupEvent`].
pub enum MarkupEventModel {
    StyleStart { name: Option<Seq<char>>, family: Option<Seq<char>> },
    ParagraphProperties { text_align: Option<Seq<char>>, break_before: Option<Seq<char>> },
    ParagraphStart { style: Option<Seq<char>> },
    ParagraphEnd,
    Text(Seq<char>),
}

impl DeepView for MarkupEvent {
    type V = MarkupEventModel;

    open spec fn deep_view(&self) -> MarkupEventModel {
        match self {
            MarkupEvent::StyleStart { name, family } => MarkupEventModel::StyleStart {
                name: name.deep_view(),
                family: family.deep_view(),
            },
            MarkupEvent::ParagraphProperties { text_align, break_before } => {
                MarkupEventModel::ParagraphProperties {
                    text_align: text_align.deep_view(),
                    break_before: break_before.deep_view(),
                }
            },
            MarkupEvent::ParagraphStart { style } => MarkupEventModel::ParagraphStart {
                style: style.deep_view(),
            },
            MarkupEvent::ParagraphEnd => MarkupEventModel::ParagraphEnd,
            MarkupEvent::Text(t) => MarkupEventModel::Text(t@),
        }
    }
}

/// A name bound to its resolved paragraph style.  Later bindings shadow
/// earlier ones, giving the overwrite semantics of a map.
pub struct StyleBinding {
    pub name: String,
    pub style: ParagraphStyleODT,
}

/// The mathematical shape of a [`StyleBinding`].
#[verifier::ext_equal]
pub struct StyleBindingModel {
    pub name: Seq<char>,
    pub style: ParagraphStyleODT,
}

impl DeepView for StyleBinding {
    type V = StyleBindingModel;

    open spec fn deep_view(&self) -> StyleBindingModel {
        StyleBindingModel { name: self.name@, style: self.style }
    }
}

/// The latest style bound to `name`, if any.
pub open spec fn style_lookup(tbl: Seq<StyleBindingModel>, name: Seq<char>) -> Option<
    ParagraphStyleODT,
>
    decreases tbl.len(),
{
    if tbl.len() == 0 {
        None
    } else if tbl.last().name == name {
        Some(tbl.last().style)
    } else {
        style_lookup(tbl.drop_last(), name)
    }
}

/// Finds the latest style bound to `name`.
fn style_lookup_exec(tbl: &Vec<StyleBinding>, name: &String) -> (r: Option<ParagraphStyleODT>)
    ensures
        r == style_lookup(tbl.deep_view(), name@),
{
    let ghost tv = tbl.deep_view();
    proof {
        assert(tv.take(tbl.len() as int) =~= tv);
    }
    let mut j: usize = tbl.len();
    while j > 0
        invariant
            j <= tbl.len(),
            tv == tbl.deep_view(),
            tv.len() == tbl.len(),
            style_lookup(tv, name@) == style_lookup(tv.take(j as int), name@),
        decreases j,
    {
        proof {
            assert(tv.take(j as int).last() == tv[j as int - 1]);
        }
        if tbl[j - 1].name == *name {
            return Some(tbl[j - 1].style);
        }
        proof {
            assert(tv.take(j as int).drop_last() =~= tv.take(j as int - 1));
        }
        j = j - 1;
    }
    proof {
        assert(tv.take(0).len() == 0);
    }
    None
}

/// A name bound to a text style.  The source format declares these beside
/// paragraph styles; extraction tracks them but reads nothing from them.
pub struct TextStyleBinding {
    pub name: String,
    pub style: TextStyleODT,
}

/// The style resolver's traversal state: the accumulated paragraph style
/// table, the most recently opened style definition, and the annotated
/// stream produced so far.
#[verifier::ext_equal]
pub struct ResolverState {
    pub styles: Seq<StyleBindingModel>,
    pub current: Seq<char>,
    pub out: Seq<OdtElementModel>,
}

/// The resolver's starting state.
pub open spec fn initial_resolver_state() -> ResolverState {
    ResolverState { styles: Seq::empty(), current: Seq::empty(), out: Seq::empty() }
}

/// Marks the current style center-aligned; an unknown current style is a
/// referential error.
pub open spec fn apply_centered(styles: Seq<StyleBindingModel>, current: Seq<char>) -> Result<
    Seq<StyleBindingModel>,
    ParseErrorModel,
> {
    match style_lookup(styles, current) {
        Some(ps) => Ok(
            styles.push(
                StyleBindingModel {
                    name: current,
                    style: ParagraphStyleODT {
                        begins_in_page_break: ps.begins_in_page_break,
                        center_aligned: true,
                    },
                },
            ),
        ),
        None => Err(ParseErrorModel::UnknownStyle(current)),
    }
}

/// Marks the current style as beginning in a page break; an unknown
/// current style is a referential error.
pub open spec fn apply_page_break(styles: Seq<StyleBindingModel>, current: Seq<char>) -> Result<
    Seq<StyleBindingModel>,
    ParseErrorModel,
> {
    match style_lookup(styles, current) {
        Some(ps) => Ok(
            styles.push(
                StyleBindingModel {
                    name: current,
                    style: ParagraphStyleODT {
                        begins_in_page_break: true,
                        center_aligned: ps.center_aligned,
                    },
                },
            ),
        ),
        None => Err(ParseErrorModel::UnknownStyle(current)),
    }
}

/// The effect of one paragraph-properties declaration: `center` alignment
/// and `page` break-before update the current style; other values are
/// ignored.
pub open spec fn props_step(
    styles: Seq<StyleBindingModel>,
    current: Seq<char>,
    text_align: Option<Seq<char>>,
    break_before: Option<Seq<char>>,
) -> Result<Seq<StyleBindingModel>, ParseErrorModel> {
    let first = if text_align == Some("center"@) {
        apply_centered(styles, current)
    } else {
        Ok(styles)
    };
    match first {
        Err(e) => Err(e),
        Ok(styles1) => if break_before == Some("page"@) {
            apply_page_break(styles1, current)
        } else {
            Ok(styles1)
        },
    }
}

/// The effect of a paragraph opening: its style reference is resolved; a
/// page-break style emits a `ChapterEnd` marker first, then the alignment
/// annotation; a paragraph without a style reference emits nothing.
pub open spec fn para_start_step(st: ResolverState, style: Option<Seq<char>>) -> Result<
    ResolverState,
    ParseErrorModel,
> {
    match style {
        None => Ok(st),
        Some(sn) => match style_lookup(st.styles, sn) {
            None => Err(ParseErrorModel::UnknownStyle(sn)),
            Some(ps) => {
                let out1 = if ps.begins_in_page_break {
                    st.out.push(OdtElementModel::ChapterEnd)
                } else {
                    st.out
                };
                let align = if ps.center_aligned {
                    TextAlign::Centre
                } else {
                    TextAlign::Left
                };
                Ok(
                    ResolverState {
                        styles: st.styles,
                        current: st.current,
                        out: out1.push(OdtElementModel::ParagraphStyle(align)),
                    },
                )
            },
        },
    }
}

/// One markup event of the resolver walk.
pub open spec fn resolve_step(st: ResolverState, e: MarkupEventModel) -> Result<
    ResolverState,
    ParseErrorModel,
> {
    match e {
        MarkupEventModel::StyleStart { name, family } => {
            let n = match name {
                Some(x) => x,
                None => Seq::empty(),
            };
            let f = match family {
                Some(x) => x,
                None => Seq::empty(),
            };
            let styles1 = if f == "paragraph"@ {
                st.styles.push(
                    StyleBindingModel {
                        name: n,
                        style: ParagraphStyleODT {
                            begins_in_page_break: false,
                            center_aligned: false,
                        },
                    },
                )
            } else {
                st.styles
            };
            Ok(ResolverState { styles: styles1, current: n, out: st.out })
        },
        MarkupEventModel::ParagraphProperties { text_align, break_before } => {
            match props_step(st.styles, st.current, text_align, break_before) {
                Ok(styles1) => Ok(
                    ResolverState { styles: styles1, current: st.current, out: st.out },
                ),
                Err(e) => Err(e),
            }
        },
        MarkupEventModel::ParagraphStart { style } => para_start_step(st, style),
        MarkupEventModel::ParagraphEnd => Ok(
            ResolverState {
                styles: st.styles,
                current: st.current,
                out: st.out.push(OdtElementModel::ParagraphEnd),
            },
        ),
        MarkupEventModel::Text(t) => Ok(
            ResolverState {
                styles: st.styles,
                current: st.current,
                out: st.out.push(OdtElementModel::Text(t)),
            },
        ),
    }
}

/// The resolver state after a whole event stream, or the first error.
pub open spec fn run_resolve(st: ResolverState, events: Seq<MarkupEventModel>) -> Result<
    ResolverState,
    ParseErrorModel,
>
    decreases events.len(),
{
    if events.len() == 0 {
        Ok(st)
    } else {
        match resolve_step(st, events[0]) {
            Err(e) => Err(e),
            Ok(st1) => run_resolve(st1, events.drop_first()),
        }
    }
}

/// The style-annotated stream a markup event stream resolves to, or the
/// first error.
pub open spec fn spec_resolve(events: Seq<MarkupEventModel>) -> Result<
    Seq<OdtElementModel>,
    ParseErrorModel,
> {
    match run_resolve(initial_resolver_state(), events) {
        Ok(st) => Ok(st.out),
        Err(e) => Err(e),
    }
}

/// Resolving splits over concatenation of the event stream.
proof fn lemma_run_resolve_app(st: ResolverState, xs: Seq<MarkupEventModel>, ys: Seq<MarkupEventModel>)
    ensures
        run_resolve(st, xs + ys) == match run_resolve(st, xs) {
            Err(e) => Err(e),
            Ok(m) => run_resolve(m, ys),
        },
    decreases xs.len(),
{
    if xs.len() == 0 {
        assert(xs + ys =~= ys);
    } else {
        assert((xs + ys)[0] == xs[0]);
        assert((xs + ys).drop_first() =~= xs.drop_first() + ys);
        match resolve_step(st, xs[0]) {
            Err(e) => {},
            Ok(st1) => {
                lemma_run_resolve_app(st1, xs.drop_first(), ys);
            },
        }
    }
}

/// Extending the event stream by one event steps the resolver once.
proof fn lemma_run_resolve_snoc(st: ResolverState, events: Seq<MarkupEventModel>, i: int)
    requires
        0 <= i < events.len(),
    ensures
        run_resolve(st, events.take(i + 1)) == match run_resolve(st, events.take(i)) {
            Err(e) => Err(e),
            Ok(m) => resolve_step(m, events[i]),
        },
{
    let one = seq![events[i]];
    assert(events.take(i + 1) =~= events.take(i) + one);
    lemma_run_resolve_app(st, events.take(i), one);
    assert(one.len() == 1);
    assert(one[0] == events[i]);
    let rest = one.drop_first();
    assert(rest =~= Seq::<MarkupEventModel>::empty());
    assert(rest.len() == 0);
    match run_resolve(st, events.take(i)) {
        Err(e) => {},
        Ok(m) => {
            match resolve_step(m, events[i]) {
                Err(e) => {},
                Ok(m1) => {
                    assert(run_resolve(m1, rest) == Ok::<ResolverState, ParseErrorModel>(m1));
                },
            }
        },
    }
}

/// An error at one event is the whole stream's result.
proof fn lemma_run_resolve_error(
    init: ResolverState,
    events: Seq<MarkupEventModel>,
    i: int,
    m: ResolverState,
    e: ParseErrorModel,
)
    requires
        0 <= i < events.len(),
        run_resolve(init, events.take(i)) == Ok::<ResolverState, ParseErrorModel>(m),
        resolve_step(m, events[i]) == Err::<ResolverState, ParseErrorModel>(e),
    ensures
        run_resolve(init, events) == Err::<ResolverState, ParseErrorModel>(e),
{
    assert(events.take(i) + events.skip(i) =~= events);
    lemma_run_resolve_app(init, events.take(i), events.skip(i));
    assert(events.skip(i)[0] == events[i]);
    assert(events.skip(i).len() > 0);
}

} // verus!

verus! {

/// Resolves a markup event stream into the style-annotated element
/// stream, accumulating named style definitions as they appear and
/// looking up each paragraph's style reference.
///
/// The current style definition is a single slot, not a stack: the
/// source format never nests style definitions, and nesting them would
/// corrupt resolution.
pub fn resolve_styles(events: &Vec<MarkupEvent>) -> (r: Result<
    Vec<DocumentElementODT>,
    ParseError,
>)
    ensures
        match r {
            Ok(v) => spec_resolve(events.deep_view()) == Ok::<
                Seq<OdtElementModel>,
                ParseErrorModel,
            >(v.deep_view()),
            Err(e) => spec_resolve(events.deep_view()) == Err::<
                Seq<OdtElementModel>,
                ParseErrorModel,
            >(e.deep_view()),
        },
{
    let ghost evs = events.deep_view();
    let ghost init = initial_resolver_state();

    let paragraph_family = String::from_str("paragraph");
    let text_family = String::from_str("text");
    let center_value = String::from_str("center");
    let page_value = String::from_str("page");

    let mut styles: Vec<StyleBinding> = Vec::new();
    let mut text_styles: Vec<TextStyleBinding> = Vec::new();
    let mut current: String = String::new();
    let mut out: Vec<DocumentElementODT> = Vec::new();

    proof {
        assert(evs.take(0) =~= Seq::<MarkupEventModel>::empty());
        assert(styles.deep_view() =~= init.styles);
        assert(out.deep_view() =~= init.out);
    }

    let mut i: usize = 0;
    while i < events.len()
        invariant
            i <= events.len(),
            evs == events.deep_view(),
            evs.len() == events.len(),
            init == initial_resolver_state(),
            paragraph_family@ == "paragraph"@,
            text_family@ == "text"@,
            center_value@ == "center"@,
            page_value@ == "page"@,
            run_resolve(init, evs.take(i as int)) == Ok::<ResolverState, ParseErrorModel>(
                ResolverState {
                    styles: styles.deep_view(),
                    current: current@,
                    out: out.deep_view(),
                },
            ),
        decreases events.len() - i,
    {
        let ghost cur = ResolverState {
            styles: styles.deep_view(),
            current: current@,
            out: out.deep_view(),
        };
        proof {
            assert(evs[i as int] == events[i as int].deep_view());
            lemma_run_resolve_snoc(init, evs, i as int);
        }
        match &events[i] {
            MarkupEvent::StyleStart { name, family } => {
                let n = match name {
                    Some(x) => x.clone(),
                    None => String::new(),
                };
                let f = match family {
                    Some(x) => x.clone(),
                    None => String::new(),
                };
                if f == paragraph_family {
                    let b = StyleBinding {
                        name: n.clone(),
                        style: ParagraphStyleODT {
                            begins_in_page_break: false,
                            center_aligned: false,
                        },
                    };
                    let ghost prev = styles;
                    let ghost bg = b;
                    styles.push(b);
                    proof {
                        lemma_deep_view_push(prev, styles, bg);
                    }
                } else if f == text_family {
                    text_styles.push(TextStyleBinding { name: n.clone(), style: TextStyleODT {  } });
                }
                current = n;
            },
            MarkupEvent::ParagraphProperties { text_align, break_before } => {
                let align_is_center = match text_align {
                    Some(v) => *v == center_value,
                    None => false,
                };
                if align_is_center {
                    match style_lookup_exec(&styles, &current) {
                        Some(ps) => {
                            let b = StyleBinding {
                                name: current.clone(),
                                style: ParagraphStyleODT {
                                    begins_in_page_break: ps.begins_in_page_break,
                                    center_aligned: true,
                                },
                            };
                            let ghost prev = styles;
                            let ghost bg = b;
                            styles.push(b);
                            proof {
                                lemma_deep_view_push(prev, styles, bg);
                            }
                        },
                        None => {
                            let e = ParseError::UnknownStyle(current.clone());
                            proof {
                                lemma_run_resolve_error(
                                    init,
                                    evs,
                                    i as int,
                                    cur,
                                    e.deep_view(),
                                );
                            }
                            return Err(e);
                        },
                    }
                }
                let break_is_page = match break_before {
                    Some(v) => *v == page_value,
                    None => false,
                };
                if break_is_page {
                    match style_lookup_exec(&styles, &current) {
                        Some(ps) => {
                            let b = StyleBinding {
                                name: current.clone(),
                                style: ParagraphStyleODT {
                                    begins_in_page_break: true,
                                    center_aligned: ps.center_aligned,
                                },
                            };
                            let ghost prev = styles;
                            let ghost bg = b;
                            styles.push(b);
                            proof {
                                lemma_deep_view_push(prev, styles, bg);
                            }
                        },
                        None => {
                            let e = ParseError::UnknownStyle(current.clone());
                            proof {
                                lemma_run_resolve_error(
                                    init,
                                    evs,
                                    i as int,
                                    cur,
                                    e.deep_view(),
                                );
                            }
                            return Err(e);
                        },
                    }
                }
            },
            MarkupEvent::ParagraphStart { style } => {
                match style {
                    None => {},
                    Some(sn) => {
                        match style_lookup_exec(&styles, sn) {
                            None => {
                                let e = ParseError::UnknownStyle(sn.clone());
                                proof {
                                    lemma_run_resolve_error(
                                        init,
                                        evs,
                                        i as int,
                                        cur,
                                        e.deep_view(),
                                    );
                                }
                                return Err(e);
                            },
                            Some(ps) => {
                                if ps.begins_in_page_break {
                                    let ghost prev = out;
                                    out.push(DocumentElementODT::ChapterEnd);
                                    proof {
                                        lemma_deep_view_push(
                                            prev,
                                            out,
                                            DocumentElementODT::ChapterEnd,
                                        );
                                    }
                                }
                                let align = if ps.center_aligned {
                                    TextAlign::Centre
                                } else {
                                    TextAlign::Left
                                };
                                let ghost prev = out;
                                out.push(DocumentElementODT::ParagraphStyle(align));
                                proof {
                                    lemma_deep_view_push(
                                        prev,
                                        out,
                                        DocumentElementODT::ParagraphStyle(align),
                                    );
                                }
                            },
                        }
                    },
                }
            },
            MarkupEvent::ParagraphEnd => {
                let ghost prev = out;
                out.push(DocumentElementODT::ParagraphEnd);
                proof {
                    lemma_deep_view_push(prev, out, DocumentElementODT::ParagraphEnd);
                }
            },
            MarkupEvent::Text(t) => {
                let e = DocumentElementODT::Text(t.clone());
                let ghost prev = out;
                let ghost eg = e;
                out.push(e);
                proof {
                    lemma_deep_view_push(prev, out, eg);
                }
            },
        }
        i = i + 1;
    }
    proof {
        assert(evs.take(events.len() as int) =~= evs);
    }
    Ok(out)
}

} // verus!

verus! {

// ---------------------------------------------------------------------------
// The structural reconstructor.
// ---------------------------------------------------------------------------

/// The reconstructor's traversal state: the document elements emitted so
/// far, the chapter count, the text accumulated for the open paragraph,
/// and the four structural flags.
#[verifier::ext_equal]
pub struct BuilderState {
    pub out: Seq<ElementModel>,
    pub number_of_chapters: int,
    pub paragraph_text: Seq<char>,
    pub after_page_break: bool,
    pub after_chapter_title: bool,
    pub chapter_title: bool,
    pub chapter_name: bool,
}

/// The reconstructor's starting state: one chapter, and the document
/// opens as if after a page break, so a leading centered paragraph is a
/// chapter title.
pub open spec fn initial_builder_state() -> BuilderState {
    BuilderState {
        out: Seq::empty(),
        number_of_chapters: 1,
        paragraph_text: Seq::empty(),
        after_page_break: true,
        after_chapter_title: false,
        chapter_title: false,
        chapter_name: false,
    }
}

/// The elements a closing paragraph contributes, and the flags it
/// leaves, in priority order: a section-break marker beats a chapter
/// title, which beats a chapter name, which beats ordinary body text.
pub open spec fn paragraph_end_step(st: BuilderState) -> BuilderState {
    let stepped = if is_section_break(st.paragraph_text) {
        BuilderState {
            out: st.out.push(ElementModel::SectionEnd),
            number_of_chapters: st.number_of_chapters,
            paragraph_text: st.paragraph_text,
            after_page_break: st.after_page_break,
            after_chapter_title: false,
            chapter_title: false,
            chapter_name: false,
        }
    } else if st.chapter_title {
        BuilderState {
            out: st.out.push(ElementModel::ChapterTitle(st.paragraph_text)),
            number_of_chapters: st.number_of_chapters,
            paragraph_text: st.paragraph_text,
            after_page_break: st.after_page_break,
            after_chapter_title: true,
            chapter_title: false,
            chapter_name: st.chapter_name,
        }
    } else if st.chapter_name {
        BuilderState {
            out: st.out.push(ElementModel::ChapterName(st.paragraph_text)),
            number_of_chapters: st.number_of_chapters,
            paragraph_text: st.paragraph_text,
            after_page_break: st.after_page_break,
            after_chapter_title: st.after_chapter_title,
            chapter_title: st.chapter_title,
            chapter_name: false,
        }
    } else {
        BuilderState {
            out: st.out + spec_parse_paragraph(st.paragraph_text),
            number_of_chapters: st.number_of_chapters,
            paragraph_text: st.paragraph_text,
            after_page_break: st.after_page_break,
            after_chapter_title: st.after_chapter_title,
            chapter_title: st.chapter_title,
            chapter_name: st.chapter_name,
        }
    };
    BuilderState {
        out: stepped.out,
        number_of_chapters: stepped.number_of_chapters,
        paragraph_text: Seq::empty(),
        after_page_break: false,
        after_chapter_title: stepped.after_chapter_title,
        chapter_title: stepped.chapter_title,
        chapter_name: stepped.chapter_name,
    }
}

/// One element of the reconstructor walk.
pub open spec fn build_step(st: BuilderState, e: OdtElementModel) -> BuilderState {
    match e {
        OdtElementModel::ParagraphStyle(align) => {
            if st.after_page_break && align is Centre {
                BuilderState {
                    out: st.out,
                    number_of_chapters: st.number_of_chapters,
                    paragraph_text: st.paragraph_text,
                    after_page_break: st.after_page_break,
                    after_chapter_title: st.after_chapter_title,
                    chapter_title: true,
                    chapter_name: st.chapter_name,
                }
            } else if st.after_chapter_title && align is Centre {
                BuilderState {
                    out: st.out,
                    number_of_chapters: st.number_of_chapters,
                    paragraph_text: st.paragraph_text,
                    after_page_break: st.after_page_break,
                    after_chapter_title: false,
                    chapter_title: st.chapter_title,
                    chapter_name: true,
                }
            } else {
                st
            }
        },
        OdtElementModel::ParagraphEnd => paragraph_end_step(st),
        OdtElementModel::ChapterEnd => BuilderState {
            out: st.out.push(ElementModel::ChapterEnd),
            number_of_chapters: st.number_of_chapters + 1,
            paragraph_text: st.paragraph_text,
            after_page_break: true,
            after_chapter_title: st.after_chapter_title,
            chapter_title: st.chapter_title,
            chapter_name: st.chapter_name,
        },
        OdtElementModel::Text(t) => BuilderState {
            out: st.out,
            number_of_chapters: st.number_of_chapters,
            paragraph_text: st.paragraph_text + t,
            after_page_break: st.after_page_break,
            after_chapter_title: st.after_chapter_title,
            chapter_title: st.chapter_title,
            chapter_name: st.chapter_name,
        },
    }
}

/// The reconstructor state after a whole annotated stream.
pub open spec fn run_build(st: BuilderState, elems: Seq<OdtElementModel>) -> BuilderState
    decreases elems.len(),
{
    if elems.len() == 0 {
        st
    } else {
        run_build(build_step(st, elems[0]), elems.drop_first())
    }
}

/// The document an annotated stream reconstructs to.
pub open spec fn spec_reconstruct(elems: Seq<OdtElementModel>) -> DocumentModel {
    let fin = run_build(initial_builder_state(), elems);
    DocumentModel { elements: fin.out, number_of_chapters: fin.number_of_chapters }
}

/// Reconstruction splits over concatenation of the annotated stream.
proof fn lemma_run_build_app(st: BuilderState, xs: Seq<OdtElementModel>, ys: Seq<OdtElementModel>)
    ensures
        run_build(st, xs + ys) == run_build(run_build(st, xs), ys),
    decreases xs.len(),
{
    if xs.len() == 0 {
        assert(xs + ys =~= ys);
    } else {
        assert((xs + ys)[0] == xs[0]);
        assert((xs + ys).drop_first() =~= xs.drop_first() + ys);
        lemma_run_build_app(build_step(st, xs[0]), xs.drop_first(), ys);
    }
}

/// Extending the annotated stream by one element steps the reconstructor
/// once.
proof fn lemma_run_build_snoc(st: BuilderState, elems: Seq<OdtElementModel>, i: int)
    requires
        0 <= i < elems.len(),
    ensures
        run_build(st, elems.take(i + 1)) == build_step(run_build(st, elems.take(i)), elems[i]),
{
    let one = seq![elems[i]];
    assert(elems.take(i + 1) =~= elems.take(i) + one);
    lemma_run_build_app(st, elems.take(i), one);
    let stm = run_build(st, elems.take(i));
    assert(one.len() == 1);
    assert(one[0] == elems[i]);
    let rest = one.drop_first();
    assert(rest =~= Seq::<OdtElementModel>::empty());
    assert(rest.len() == 0);
    assert(run_build(stm, one) == run_build(build_step(stm, elems[i]), rest));
}

} // verus!

verus! {

// ---------------------------------------------------------------------------
// Chapter counting.
// ---------------------------------------------------------------------------

/// Counting chapter ends distributes over concatenation.
proof fn lemma_chapter_end_count_app(a: Seq<ElementModel>, b: Seq<ElementModel>)
    ensures
        chapter_end_count(a + b) == chapter_end_count(a) + chapter_end_count(b),
    decreases b.len(),
{
    if b.len() == 0 {
        assert(a + b =~= a);
    } else {
        assert((a + b).drop_last() =~= a + b.drop_last());
        assert((a + b).last() == b.last());
        lemma_chapter_end_count_app(a, b.drop_last());
    }
}

/// Counting chapter ends over a push counts the pushed element.
proof fn lemma_count_push(a: Seq<ElementModel>, x: ElementModel)
    ensures
        chapter_end_count(a.push(x)) == chapter_end_count(a) + if x is ChapterEnd {
            1int
        } else {
            0int
        },
{
    assert(a.push(x).drop_last() =~= a);
    assert(a.push(x).last() == x);
}

/// The segmenter emits no `ChapterEnd` elements.
proof fn lemma_seg_no_chapter_end(st: SegmenterState, toks: Seq<Seq<char>>)
    ensures
        chapter_end_count(run_seg(st, toks).out) == chapter_end_count(st.out),
    decreases toks.len(),
{
    if toks.len() == 0 {
    } else {
        let w = toks[0];
        let st1 = seg_step(st, w);
        if is_blank(w) && st.sentence.len() == 0 {
        } else if w == quote_open() {
        } else if w == quote_close() && st.direct_speech {
            lemma_count_push(st.out, ElementModel::DirectSpeech(st.sentence));
        } else if is_terminator(w) && !st.direct_speech {
            lemma_count_push(st.out, ElementModel::Sentence(st.sentence.push(w)));
        }
        lemma_seg_no_chapter_end(st1, toks.drop_first());
    }
}

/// A segmented paragraph contributes no `ChapterEnd` elements.
proof fn lemma_paragraph_no_chapter_end(text: Seq<char>)
    ensures
        chapter_end_count(spec_parse_paragraph(text)) == 0,
{
    let init = initial_segmenter_state();
    lemma_seg_no_chapter_end(init, word_bounds_of(text));
    let fin = run_seg(init, word_bounds_of(text));
    if fin.sentence.len() > 0 {
        lemma_count_push(fin.out, ElementModel::Sentence(fin.sentence));
        lemma_count_push(
            fin.out.push(ElementModel::Sentence(fin.sentence)),
            ElementModel::ParagraphEnd,
        );
    } else {
        lemma_count_push(fin.out, ElementModel::ParagraphEnd);
    }
}

/// Along the whole reconstruction, the difference between the chapter-end
/// count of the output and the chapter counter is invariant.
proof fn lemma_build_preserves_count(st: BuilderState, elems: Seq<OdtElementModel>)
    ensures
        chapter_end_count(run_build(st, elems).out) - run_build(st, elems).number_of_chapters
            == chapter_end_count(st.out) - st.number_of_chapters,
    decreases elems.len(),
{
    if elems.len() == 0 {
    } else {
        let st1 = build_step(st, elems[0]);
        match elems[0] {
            OdtElementModel::ParagraphStyle(_) => {},
            OdtElementModel::ChapterEnd => {
                lemma_count_push(st.out, ElementModel::ChapterEnd);
            },
            OdtElementModel::Text(_) => {},
            OdtElementModel::ParagraphEnd => {
                if is_section_break(st.paragraph_text) {
                    lemma_count_push(st.out, ElementModel::SectionEnd);
                } else if st.chapter_title {
                    lemma_count_push(st.out, ElementModel::ChapterTitle(st.paragraph_text));
                } else if st.chapter_name {
                    lemma_count_push(st.out, ElementModel::ChapterName(st.paragraph_text));
                } else {
                    lemma_chapter_end_count_app(st.out, spec_parse_paragraph(st.paragraph_text));
                    lemma_paragraph_no_chapter_end(st.paragraph_text);
                }
            },
        }
        lemma_build_preserves_count(st1, elems.drop_first());
    }
}

/// In every reconstructed document, the number of `ChapterEnd` elements
/// equals the chapter count minus one.
pub proof fn lemma_chapter_end_count_matches(elems: Seq<OdtElementModel>)
    ensures
        chapter_end_count(spec_reconstruct(elems).elements) == spec_reconstruct(
            elems,
        ).number_of_chapters - 1,
{
    lemma_build_preserves_count(initial_builder_state(), elems);
}

// ---------------------------------------------------------------------------
// Reconstruction, executably.
// ---------------------------------------------------------------------------

/// Reconstructs the document from the style-annotated stream: text
/// accumulates until its paragraph closes, and each closing paragraph
/// becomes a section break, a chapter title, a chapter name, or segmented
/// body text.
pub fn build_document(elements: &Vec<DocumentElementODT>) -> (doc: Document)
    requires
        elements.len() < 0x7fff_ffff,
    ensures
        doc.deep_view() == spec_reconstruct(elements.deep_view()),
        chapter_end_count(doc.deep_view().elements) == doc.deep_view().number_of_chapters - 1,
        1 <= doc.number_of_chapters,
{
    let ghost elv = elements.deep_view();
    let ghost init = initial_builder_state();

    let mut doc_out: Vec<DocumentElement> = Vec::new();
    let mut number_of_chapters: i32 = 1;
    let mut paragraph_text: String = String::new();
    let mut after_page_break: bool = true;
    let mut after_chapter_title: bool = false;
    let mut chapter_title: bool = false;
    let mut chapter_name: bool = false;

    proof {
        assert(elv.take(0) =~= Seq::<OdtElementModel>::empty());
        assert(doc_out.deep_view() =~= init.out);
        assert(paragraph_text@ =~= init.paragraph_text);
    }

    let mut i: usize = 0;
    while i < elements.len()
        invariant
            i <= elements.len(),
            elements.len() < 0x7fff_ffff,
            elv == elements.deep_view(),
            elv.len() == elements.len(),
            init == initial_builder_state(),
            doc_out.deep_view() == run_build(init, elv.take(i as int)).out,
            number_of_chapters as int == run_build(init, elv.take(i as int)).number_of_chapters,
            paragraph_text@ == run_build(init, elv.take(i as int)).paragraph_text,
            after_page_break == run_build(init, elv.take(i as int)).after_page_break,
            after_chapter_title == run_build(init, elv.take(i as int)).after_chapter_title,
            chapter_title == run_build(init, elv.take(i as int)).chapter_title,
            chapter_name == run_build(init, elv.take(i as int)).chapter_name,
            1 <= number_of_chapters as int,
            number_of_chapters as int <= 1 + i as int,
        decreases elements.len() - i,
    {
        proof {
            assert(elv[i as int] == elements[i as int].deep_view());
            lemma_run_build_snoc(init, elv, i as int);
        }
        match &elements[i] {
            DocumentElementODT::ParagraphStyle(align) => {
                if after_page_break && *align == TextAlign::Centre {
                    chapter_title = true;
                } else if after_chapter_title && *align == TextAlign::Centre {
                    chapter_name = true;
                    after_chapter_title = false;
                }
            },
            DocumentElementODT::ParagraphEnd => {
                if paragraph_is_section_break(&paragraph_text) {
                    let ghost prev = doc_out;
                    doc_out.push(DocumentElement::SectionEnd);
                    proof {
                        lemma_deep_view_push(prev, doc_out, DocumentElement::SectionEnd);
                    }
                    chapter_title = false;
                    after_chapter_title = false;
                    chapter_name = false;
                } else if chapter_title {
                    let e = DocumentElement::ChapterTitle(paragraph_text.clone());
                    let ghost prev = doc_out;
                    let ghost eg = e;
                    doc_out.push(e);
                    proof {
                        lemma_deep_view_push(prev, doc_out, eg);
                    }
                    after_chapter_title = true;
                    chapter_title = false;
                } else if chapter_name {
                    let e = DocumentElement::ChapterName(paragraph_text.clone());
                    let ghost prev = doc_out;
                    let ghost eg = e;
                    doc_out.push(e);
                    proof {
                        lemma_deep_view_push(prev, doc_out, eg);
                    }
                    chapter_name = false;
                } else {
                    let mut sentences = parse_paragraph(&paragraph_text);
                    let ghost prev = doc_out;
                    let ghost sg = sentences;
                    doc_out.append(&mut sentences);
                    proof {
                        lemma_deep_view_app(prev, sg, doc_out);
                    }
                }
                after_page_break = false;
                paragraph_text = String::new();
            },
            DocumentElementODT::ChapterEnd => {
                after_page_break = true;
                let ghost prev = doc_out;
                doc_out.push(DocumentElement::ChapterEnd);
                proof {
                    lemma_deep_view_push(prev, doc_out, DocumentElement::ChapterEnd);
                }
                number_of_chapters = number_of_chapters + 1;
            },
            DocumentElementODT::Text(this_text) => {
                paragraph_text.append(this_text.as_str());
            },
        }
        i = i + 1;
    }
    proof {
        assert(elv.take(elements.len() as int) =~= elv);
        lemma_chapter_end_count_matches(elv);
    }
    Document { elements: doc_out, number_of_chapters }
}

} // verus!

verus! {

/// The document a manuscript container parses to, as a function of the
/// archive bytes alone: the `content.xml` member's markup is scanned
/// into events, resolved against its style definitions, and
/// reconstructed — or the first stage's structured error.
pub open spec fn spec_parse(data: Seq<u8>) -> Result<DocumentModel, ParseErrorModel> {
    match crate::container::zip_member_of(data, "content.xml"@) {
        None => Err(ParseErrorModel::Container),
        Some(None) => Err(ParseErrorModel::ContentMissing),
        Some(Some(xml)) => match crate::markup::markup_events_of(xml) {
            Err(p) => Err(ParseErrorModel::Markup(p)),
            Ok(evs) => match spec_resolve(evs) {
                Err(e) => Err(e),
                Ok(elems) => if elems.len() >= 0x7fff_ffff {
                    Err(ParseErrorModel::TooLarge)
                } else {
                    Ok(spec_reconstruct(elems))
                },
            },
        },
    }
}

/// Parses a whole manuscript container: the bytes of a ZIP archive whose
/// `content.xml` member holds the styled markup.  The markup stream is
/// read into events, resolved against its style definitions, and
/// reconstructed into the document model; the result — document or
/// structured error — is exactly [`spec_parse`] of the bytes, and every
/// reconstructed document has one chapter more than its `ChapterEnd`
/// markers.
pub fn parse(data: &[u8]) -> (r: Result<Document, ParseError>)
    ensures
        match r {
            Ok(doc) => spec_parse(data@) == Ok::<DocumentModel, ParseErrorModel>(doc.deep_view()),
            Err(e) => spec_parse(data@) == Err::<DocumentModel, ParseErrorModel>(e.deep_view()),
        },
        match r {
            Ok(doc) => {
                &&& chapter_end_count(doc.deep_view().elements) == doc.deep_view().number_of_chapters
                    - 1
                &&& 1 <= doc.number_of_chapters
            },
            Err(_) => true,
        },
{
    let xml = match crate::container::extract_content(data) {
        Ok(x) => x,
        Err(e) => return Err(e),
    };
    let events = match crate::markup::read_events(xml.as_str()) {
        Ok(v) => v,
        Err(e) => return Err(e),
    };
    let odt_elements = match resolve_styles(&events) {
        Ok(v) => v,
        Err(e) => return Err(e),
    };
    if odt_elements.len() >= 0x7fff_ffff {
        return Err(ParseError::TooLarge);
    }
    Ok(build_document(&odt_elements))
}

} // verus!

verus! {

/// Peeling the first part off a concatenation.
proof fn lemma_concat_seqs_first(parts: Seq<Seq<char>>)
    requires
        parts.len() > 0,
    ensures
        concat_seqs(parts) == parts[0] + concat_seqs(parts.drop_first()),
    decreases parts.len(),
{
    if parts.len() == 1 {
        assert(parts.drop_first() =~= Seq::<Seq<char>>::empty());
        assert(concat_seqs(parts.drop_first()) =~= Seq::<char>::empty());
        assert(parts.drop_last() =~= Seq::<Seq<char>>::empty());
        assert(concat_seqs(parts) == parts[0]);
        assert(parts[0] + Seq::<char>::empty() =~= parts[0]);
    } else {
        assert(parts.drop_last().len() > 0);
        assert(parts.drop_last()[0] == parts[0]);
        lemma_concat_seqs_first(parts.drop_last());
        assert(parts.drop_last().drop_first() =~= parts.drop_first().drop_last());
        assert(parts.drop_first().last() == parts.last());
        assert((parts[0] + concat_seqs(parts.drop_first().drop_last())) + parts.last() =~= parts[0]
            + concat_seqs(parts.drop_first()));
    }
}

/// A run of text elements only accumulates: the builder's output, count
/// and flags stand, and the texts join the open paragraph in order.
proof fn lemma_build_texts_accumulate(st: BuilderState, texts: Seq<Seq<char>>)
    ensures
        run_build(st, texts.map_values(|t: Seq<char>| OdtElementModel::Text(t))) == (BuilderState {
            out: st.out,
            number_of_chapters: st.number_of_chapters,
            paragraph_text: st.paragraph_text + concat_seqs(texts),
            after_page_break: st.after_page_break,
            after_chapter_title: st.after_chapter_title,
            chapter_title: st.chapter_title,
            chapter_name: st.chapter_name,
        }),
    decreases texts.len(),
{
    let elems = texts.map_values(|t: Seq<char>| OdtElementModel::Text(t));
    if texts.len() == 0 {
        assert(elems.len() == 0);
        assert(st.paragraph_text + concat_seqs(texts) =~= st.paragraph_text);
        assert(run_build(st, elems) =~~= (BuilderState {
            out: st.out,
            number_of_chapters: st.number_of_chapters,
            paragraph_text: st.paragraph_text + concat_seqs(texts),
            after_page_break: st.after_page_break,
            after_chapter_title: st.after_chapter_title,
            chapter_title: st.chapter_title,
            chapter_name: st.chapter_name,
        }));
    } else {
        assert(elems[0] == OdtElementModel::Text(texts[0]));
        let st1 = build_step(st, elems[0]);
        assert(elems.drop_first() =~= texts.drop_first().map_values(
            |t: Seq<char>| OdtElementModel::Text(t),
        ));
        lemma_build_texts_accumulate(st1, texts.drop_first());
        lemma_concat_seqs_first(texts);
        assert((st.paragraph_text + texts[0]) + concat_seqs(texts.drop_first()) =~= st.paragraph_text
            + concat_seqs(texts));
    }
}

/// The composite section-break law: a whole paragraph — any run of text
/// elements whose concatenated text is a section-break marker after
/// trimming, closed by its paragraph end — contributes exactly one
/// `SectionEnd` element and nothing else, leaves the chapter count
/// alone, and clears the chapter-title and chapter-name state, so an
/// immediately following centered paragraph is ordinary body text.
pub proof fn lemma_section_break_paragraph(st: BuilderState, texts: Seq<Seq<char>>)
    requires
        st.paragraph_text.len() == 0,
        is_section_break(concat_seqs(texts)),
    ensures
        ({
            let fin = run_build(
                st,
                texts.map_values(|t: Seq<char>| OdtElementModel::Text(t)).push(
                    OdtElementModel::ParagraphEnd,
                ),
            );
            &&& fin.out == st.out.push(ElementModel::SectionEnd)
            &&& fin.number_of_chapters == st.number_of_chapters
            &&& fin.paragraph_text.len() == 0
            &&& !fin.after_page_break
            &&& !fin.after_chapter_title
            &&& !fin.chapter_title
            &&& !fin.chapter_name
        }),
{
    let text_elems = texts.map_values(|t: Seq<char>| OdtElementModel::Text(t));
    lemma_build_texts_accumulate(st, texts);
    let mid = run_build(st, text_elems);
    assert(st.paragraph_text + concat_seqs(texts) =~= concat_seqs(texts));
    assert(mid.paragraph_text == concat_seqs(texts));
    let one = seq![OdtElementModel::ParagraphEnd];
    assert(text_elems.push(OdtElementModel::ParagraphEnd) =~= text_elems + one);
    lemma_run_build_app(st, text_elems, one);
    assert(one.len() == 1);
    assert(one[0] == OdtElementModel::ParagraphEnd);
    let stepped = build_step(mid, OdtElementModel::ParagraphEnd);
    assert(one.drop_first() =~= Seq::<OdtElementModel>::empty());
    assert(one.drop_first().len() == 0);
    assert(run_build(mid, one) == run_build(stepped, one.drop_first()));
    assert(run_build(stepped, one.drop_first()) == stepped);
}

} // verus!

verus! {

/// A one-element walk is one step.
proof fn lemma_run_build_one(st: BuilderState, e: OdtElementModel)
    ensures
        run_build(st, seq![e]) == build_step(st, e),
{
    let one = seq![e];
    assert(one.len() == 1);
    assert(one[0] == e);
    let stepped = build_step(st, e);
    assert(one.drop_first() =~= Seq::<OdtElementModel>::empty());
    assert(one.drop_first().len() == 0);
    assert(run_build(st, one) == run_build(stepped, one.drop_first()));
    assert(run_build(stepped, one.drop_first()) == stepped);
}

/// The annotated elements of one whole paragraph: its alignment
/// annotation, its text runs, and its end marker.
pub open spec fn paragraph_elems(align: TextAlign, texts: Seq<Seq<char>>) -> Seq<
    OdtElementModel,
> {
    seq![OdtElementModel::ParagraphStyle(align)] + texts.map_values(
        |t: Seq<char>| OdtElementModel::Text(t),
    ) + seq![OdtElementModel::ParagraphEnd]
}

/// Walking one whole paragraph is: the alignment step, the accumulated
/// text, then the paragraph-end step.
proof fn lemma_paragraph_walk(st: BuilderState, align: TextAlign, texts: Seq<Seq<char>>)
    ensures
        run_build(st, paragraph_elems(align, texts)) == paragraph_end_step(
            BuilderState {
                out: build_step(st, OdtElementModel::ParagraphStyle(align)).out,
                number_of_chapters: build_step(
                    st,
                    OdtElementModel::ParagraphStyle(align),
                ).number_of_chapters,
                paragraph_text: build_step(
                    st,
                    OdtElementModel::ParagraphStyle(align),
                ).paragraph_text + concat_seqs(texts),
                after_page_break: build_step(
                    st,
                    OdtElementModel::ParagraphStyle(align),
                ).after_page_break,
                after_chapter_title: build_step(
                    st,
                    OdtElementModel::ParagraphStyle(align),
                ).after_chapter_title,
                chapter_title: build_step(st, OdtElementModel::ParagraphStyle(align)).chapter_title,
                chapter_name: build_step(st, OdtElementModel::ParagraphStyle(align)).chapter_name,
            },
        ),
{
    let style = seq![OdtElementModel::ParagraphStyle(align)];
    let text_elems = texts.map_values(|t: Seq<char>| OdtElementModel::Text(t));
    let pe = seq![OdtElementModel::ParagraphEnd];
    assert(paragraph_elems(align, texts) =~= style + (text_elems + pe));
    lemma_run_build_app(st, style, text_elems + pe);
    lemma_run_build_one(st, OdtElementModel::ParagraphStyle(align));
    let st1 = build_step(st, OdtElementModel::ParagraphStyle(align));
    lemma_run_build_app(st1, text_elems, pe);
    lemma_build_texts_accumulate(st1, texts);
    let mid = run_build(st1, text_elems);
    lemma_run_build_one(mid, OdtElementModel::ParagraphEnd);
}

/// The composite chapter-opening law: after a page-break marker, a
/// centered paragraph becomes the chapter title, the next centered
/// paragraph the chapter name, and a following left-aligned paragraph
/// ordinary segmented body text; the chapter count grows by one, for
/// the marker alone.  The paragraph texts may be any runs of text
/// elements whose concatenations are no section-break markers.
pub proof fn lemma_chapter_opening_walk(
    st: BuilderState,
    texts_a: Seq<Seq<char>>,
    texts_b: Seq<Seq<char>>,
    texts_c: Seq<Seq<char>>,
)
    requires
        st.paragraph_text.len() == 0,
        !is_section_break(concat_seqs(texts_a)),
        !is_section_break(concat_seqs(texts_b)),
        !is_section_break(concat_seqs(texts_c)),
    ensures
        ({
            let fin = run_build(
                st,
                seq![OdtElementModel::ChapterEnd] + paragraph_elems(TextAlign::Centre, texts_a)
                    + paragraph_elems(TextAlign::Centre, texts_b) + paragraph_elems(
                    TextAlign::Left,
                    texts_c,
                ),
            );
            &&& fin.out == st.out.push(ElementModel::ChapterEnd).push(
                ElementModel::ChapterTitle(concat_seqs(texts_a)),
            ).push(ElementModel::ChapterName(concat_seqs(texts_b))) + spec_parse_paragraph(
                concat_seqs(texts_c),
            )
            &&& fin.number_of_chapters == st.number_of_chapters + 1
        }),
{
    let ce = seq![OdtElementModel::ChapterEnd];
    let pa = paragraph_elems(TextAlign::Centre, texts_a);
    let pb = paragraph_elems(TextAlign::Centre, texts_b);
    let pc = paragraph_elems(TextAlign::Left, texts_c);
    let elems = ce + pa + pb + pc;
    assert(elems =~= ce + (pa + (pb + pc)));
    lemma_run_build_app(st, ce, pa + (pb + pc));
    lemma_run_build_one(st, OdtElementModel::ChapterEnd);
    let st1 = build_step(st, OdtElementModel::ChapterEnd);
    lemma_run_build_app(st1, pa, pb + pc);
    lemma_paragraph_walk(st1, TextAlign::Centre, texts_a);
    let st2 = run_build(st1, pa);
    assert(st1.paragraph_text + concat_seqs(texts_a) =~= concat_seqs(texts_a));
    lemma_run_build_app(st2, pb, pc);
    lemma_paragraph_walk(st2, TextAlign::Centre, texts_b);
    let st3 = run_build(st2, pb);
    assert(st2.paragraph_text + concat_seqs(texts_b) =~= concat_seqs(texts_b));
    lemma_paragraph_walk(st3, TextAlign::Left, texts_c);
    assert(st3.paragraph_text + concat_seqs(texts_c) =~= concat_seqs(texts_c));
    let fin = run_build(st, elems);
    assert(fin.out =~= st.out.push(ElementModel::ChapterEnd).push(
        ElementModel::ChapterTitle(concat_seqs(texts_a)),
    ).push(ElementModel::ChapterName(concat_seqs(texts_b))) + spec_parse_paragraph(
        concat_seqs(texts_c),
    ));
}

} // verus!
