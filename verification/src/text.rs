use unicode_segmentation::UnicodeSegmentation;
use vstd::prelude::*;

verus! {

// ---------------------------------------------------------------------------
// Named results of Unicode-aware library functions.
//
// What these functions return is a function of their argument alone, but
// writing it out would mean transcribing Unicode tables.  Each gets a name,
// applied only in the contract of the one wrapper that computes it.
// ---------------------------------------------------------------------------

/// The characters of `s` with leading and trailing whitespace removed.
pub uninterp spec fn trim_of(s: Seq<char>) -> Seq<char>;

/// The lowercase form of `s`.
pub uninterp spec fn lower_of(s: Seq<char>) -> Seq<char>;

/// The tokens of `s`, split on Unicode word boundaries.  Words, whitespace
/// runs and punctuation marks each form their own token.
pub uninterp spec fn word_bounds_of(s: Seq<char>) -> Seq<Seq<char>>;

/// Relies on `str::trim`: removes leading and trailing whitespace; the
/// result depends on the characters alone.
#[verifier::external_body]
pub fn trim_str(s: &str) -> (r: &str)
    ensures
        r@ == trim_of(s@),
{
    s.trim()
}

/// Relies on `str::to_lowercase`: the result depends on the characters
/// alone, and an empty string stays empty.
#[verifier::external_body]
pub fn lowercase(s: &str) -> (r: String)
    ensures
        r@ == lower_of(s@),
        s@.len() == 0 ==> r@.len() == 0,
{
    s.to_lowercase()
}

/// Relies on `unicode_segmentation::UnicodeSegmentation::split_word_bounds`:
/// the tokens depend on the characters alone, and, as its documentation
/// states, their concatenation is exactly the input string.
#[verifier::external_body]
pub fn split_words(s: &str) -> (r: Vec<String>)
    ensures
        r.deep_view() == word_bounds_of(s@),
        concat_seqs(r.deep_view()) == s@,
{
    s.split_word_bounds().map(|w| w.to_string()).collect()
}

/// Relies on `String::from::<char>`: a string holding exactly the one
/// character.
#[verifier::external_body]
pub fn char_string(c: char) -> (r: String)
    ensures
        r@ == seq![c],
{
    String::from(c)
}

// ---------------------------------------------------------------------------
// Verified helpers on character sequences and strings.
// ---------------------------------------------------------------------------

/// The concatenation of a sequence of character sequences, in order.
pub open spec fn concat_seqs(parts: Seq<Seq<char>>) -> Seq<char>
    decreases parts.len(),
{
    if parts.len() == 0 {
        Seq::empty()
    } else {
        concat_seqs(parts.drop_last()) + parts.last()
    }
}

/// Whether a token consists of whitespace alone (or is empty): trimming
/// leaves nothing.
pub open spec fn is_blank(w: Seq<char>) -> bool {
    trim_of(w).len() == 0
}

/// Whether a token is whitespace-only, decided the way every walk over
/// the word stream decides it: by trimming.
pub fn is_blank_token(w: &str) -> (r: bool)
    ensures
        r == is_blank(w@),
{
    trim_str(w).is_empty()
}

/// Whether `s` ends in the two characters `l`, `y`.
pub open spec fn ends_in_ly(s: Seq<char>) -> bool {
    s.len() >= 2 && s[s.len() - 2] == 'l' && s[s.len() - 1] == 'y'
}

/// Decides [`ends_in_ly`] by looking at the last two characters.
pub fn word_ends_in_ly(w: &str) -> (r: bool)
    ensures
        r == ends_in_ly(w@),
{
    let n = w.unicode_len();
    if n < 2 {
        false
    } else {
        w.get_char(n - 2) == 'l' && w.get_char(n - 1) == 'y'
    }
}

/// An element-wise copy of a vector of strings.
pub fn clone_strings(v: &Vec<String>) -> (r: Vec<String>)
    ensures
        r@ == v@,
{
    let mut r: Vec<String> = Vec::new();
    let mut i: usize = 0;
    while i < v.len()
        invariant
            i <= v.len(),
            r@ =~= v@.subrange(0, i as int),
        decreases v.len() - i,
    {
        r.push(v[i].clone());
        i = i + 1;
    }
    assert(r@ =~= v@);
    r
}

// ---------------------------------------------------------------------------
// Decimal rendering of integers.
// ---------------------------------------------------------------------------

/// The decimal digit character for `d` (0 through 9).
pub open spec fn dec_digit_char(d: int) -> char {
    if d == 0 {
        '0'
    } else if d == 1 {
        '1'
    } else if d == 2 {
        '2'
    } else if d == 3 {
        '3'
    } else if d == 4 {
        '4'
    } else if d == 5 {
        '5'
    } else if d == 6 {
        '6'
    } else if d == 7 {
        '7'
    } else if d == 8 {
        '8'
    } else {
        '9'
    }
}

/// The decimal digits of a nonnegative number, most significant first.
pub open spec fn dec_digits(n: nat) -> Seq<char>
    decreases n,
{
    if n < 10 {
        seq![dec_digit_char(n as int)]
    } else {
        dec_digits(n / 10).push(dec_digit_char((n % 10) as int))
    }
}

/// The decimal rendering of an integer, with a leading minus sign when
/// negative.
pub open spec fn dec_of(n: int) -> Seq<char> {
    if n < 0 {
        seq!['-'] + dec_digits((-n) as nat)
    } else {
        dec_digits(n as nat)
    }
}

/// The one-character string for a single decimal digit.
fn digit_str(d: u64) -> (r: &'static str)
    requires
        d < 10,
    ensures
        r@ == seq![dec_digit_char(d as int)],
{
    proof {
        reveal_strlit("0");
        reveal_strlit("1");
        reveal_strlit("2");
        reveal_strlit("3");
        reveal_strlit("4");
        reveal_strlit("5");
        reveal_strlit("6");
        reveal_strlit("7");
        reveal_strlit("8");
        reveal_strlit("9");
    }
    let r = if d == 0 {
        "0"
    } else if d == 1 {
        "1"
    } else if d == 2 {
        "2"
    } else if d == 3 {
        "3"
    } else if d == 4 {
        "4"
    } else if d == 5 {
        "5"
    } else if d == 6 {
        "6"
    } else if d == 7 {
        "7"
    } else if d == 8 {
        "8"
    } else {
        "9"
    };
    assert(r@ =~= seq![dec_digit_char(d as int)]);
    r
}

/// Renders a nonnegative number in decimal.
fn u64_dec_string(n: u64) -> (r: String)
    ensures
        r@ == dec_digits(n as nat),
    decreases n,
{
    if n < 10 {
        String::from_str(digit_str(n))
    } else {
        let mut s = u64_dec_string(n / 10);
        let d = digit_str(n % 10);
        s.append(d);
        assert(s@ =~= dec_digits(n as nat));
        s
    }
}

/// Renders an integer in decimal, as `i32::to_string` would.
pub fn i32_dec_string(n: i32) -> (r: String)
    ensures
        r@ == dec_of(n as int),
{
    if n < 0 {
        proof {
            reveal_strlit("-");
        }
        let mut s = String::from_str("-");
        let m: u64 = (-(n as i64)) as u64;
        let digits = u64_dec_string(m);
        s.append(digits.as_str());
        assert(s@ =~= dec_of(n as int));
        s
    } else {
        u64_dec_string(n as u64)
    }
}

} // verus!
