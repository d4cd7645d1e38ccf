use vstd::prelude::*;

verus! {

/// One semantic element of the analyzed document, in document order.
///
/// `ChapterTitle` and `ChapterName` carry the text of a centered paragraph
/// that follows a page break (respectively a title).  `Sentence` and
/// `DirectSpeech` carry the tokens of a span of body text, words and
/// interstitial whitespace/punctuation alike.  The three marker variants
/// carry no payload.
#[derive(Debug, PartialEq)]
pub enum DocumentElement {
    ChapterTitle(String),
    ChapterName(String),
    DirectSpeech(Vec<String>),
    Sentence(Vec<String>),
    ParagraphEnd,
    ChapterEnd,
    SectionEnd,
}

/// The mathematical shape of a [`DocumentElement`]: text as sequences of
/// characters, token lists as sequences of such sequences.
pub enum ElementModel {
    ChapterTitle(Seq<char>),
    ChapterName(Seq<char>),
    DirectSpeech(Seq<Seq<char>>),
    Sentence(Seq<Seq<char>>),
    ParagraphEnd,
    ChapterEnd,
    SectionEnd,
}

impl DeepView for DocumentElement {
    type V = ElementModel;

    open spec fn deep_view(&self) -> ElementModel {
        match self {
            DocumentElement::ChapterTitle(t) => ElementModel::ChapterTitle(t@),
            DocumentElement::ChapterName(t) => ElementModel::ChapterName(t@),
            DocumentElement::DirectSpeech(w) => ElementModel::DirectSpeech(w.deep_view()),
            DocumentElement::Sentence(w) => ElementModel::Sentence(w.deep_view()),
            DocumentElement::ParagraphEnd => ElementModel::ParagraphEnd,
            DocumentElement::ChapterEnd => ElementModel::ChapterEnd,
            DocumentElement::SectionEnd => ElementModel::SectionEnd,
        }
    }
}

/// A fully extracted document: its elements in order, and the total number
/// of chapters (one more than the number of `ChapterEnd` elements).
#[derive(Debug, PartialEq)]
pub struct Document {
    pub elements: Vec<DocumentElement>,
    pub number_of_chapters: i32,
}

/// The mathematical shape of a [`Document`].
pub struct DocumentModel {
    pub elements: Seq<ElementModel>,
    pub number_of_chapters: int,
}

impl DeepView for Document {
    type V = DocumentModel;

    open spec fn deep_view(&self) -> DocumentModel {
        DocumentModel {
            elements: self.elements.deep_view(),
            number_of_chapters: self.number_of_chapters as int,
        }
    }
}

/// Pushing onto a vector pushes the element's model onto its deep view.
pub proof fn lemma_deep_view_push<T: DeepView>(v1: Vec<T>, v2: Vec<T>, x: T)
    requires
        v2@ == v1@.push(x),
    ensures
        v2.deep_view() == v1.deep_view().push(x.deep_view()),
{
    assert(v2.deep_view() =~= v1.deep_view().push(x.deep_view()));
}

/// Concatenating vectors concatenates their deep views.
pub proof fn lemma_deep_view_app<T: DeepView>(v1: Vec<T>, v2: Vec<T>, v3: Vec<T>)
    requires
        v3@ == v1@ + v2@,
    ensures
        v3.deep_view() == v1.deep_view() + v2.deep_view(),
{
    assert(v3.deep_view() =~= v1.deep_view() + v2.deep_view());
}

/// A structured reason why a manuscript could not be parsed.
#[derive(Debug, PartialEq)]
pub enum ParseError {
    /// The container is not a readable archive.
    Container,
    /// The archive holds no content stream.
    ContentMissing,
    /// The markup is not well formed; the payload is the byte offset the
    /// reader had reached.
    Markup(u64),
    /// A paragraph or property declaration refers to a style name that was
    /// never defined as a paragraph style.
    UnknownStyle(String),
    /// The document holds more elements than the counters can index.
    TooLarge,
}

/// The mathematical shape of a [`ParseError`].
pub enum ParseErrorModel {
    Container,
    ContentMissing,
    Markup(int),
    UnknownStyle(Seq<char>),
    TooLarge,
}

impl DeepView for ParseError {
    type V = ParseErrorModel;

    open spec fn deep_view(&self) -> ParseErrorModel {
        match self {
            ParseError::Container => ParseErrorModel::Container,
            ParseError::ContentMissing => ParseErrorModel::ContentMissing,
            ParseError::Markup(p) => ParseErrorModel::Markup(*p as int),
            ParseError::UnknownStyle(n) => ParseErrorModel::UnknownStyle(n@),
            ParseError::TooLarge => ParseErrorModel::TooLarge,
        }
    }
}

/// How many elements of a sequence are `ChapterEnd` markers.
pub open spec fn chapter_end_count(elements: Seq<ElementModel>) -> int
    decreases elements.len(),
{
    if elements.len() == 0 {
        0
    } else {
        chapter_end_count(elements.drop_last()) + if elements.last() is ChapterEnd {
            1int
        } else {
            0int
        }
    }
}

} // verus!
