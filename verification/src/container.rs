use std::io::Cursor;
use std::io::Read;
use vstd::prelude::*;
use zip::ZipArchive;

use crate::document::ParseError;

verus! {

// ---------------------------------------------------------------------------
// The document container, from the zip crate.
//
// Which members an archive holds and what they decompress to is a
// function of its bytes alone, so the lookup's whole outcome gets a
// name, and the one wrapper that performs it promises exactly that
// outcome.
// ---------------------------------------------------------------------------

/// What looking a member up in an archive yields, as a function of the
/// archive bytes and the member name alone: `None` when the bytes do not
/// parse as a readable archive or the member cannot be decompressed to
/// text; `Some(None)` when the archive is readable but holds no member
/// of that name; `Some(Some(s))` when the member decompresses to the
/// text `s`.
pub uninterp spec fn zip_member_of(data: Seq<u8>, name: Seq<char>) -> Option<Option<Seq<char>>>;

/// Relies on `zip::ZipArchive::new` (parses the central directory),
/// `zip::ZipArchive::by_name` (finds the member, `ZipError::FileNotFound`
/// when absent) and `std::io::Read::read_to_string` (decompresses it,
/// erring on corrupt or non-UTF-8 contents).  Each outcome is a function
/// of the bytes and the name alone, named by [`zip_member_of`].
#[verifier::external_body]
fn zip_member(data: &[u8], name: &str) -> (r: Result<Option<String>, ()>)
    ensures
        match r {
            Ok(Some(s)) => zip_member_of(data@, name@) == Some(Some(s@)),
            Ok(None) => zip_member_of(data@, name@) == Some(None::<Seq<char>>),
            Err(_) => zip_member_of(data@, name@) is None,
        },
{
    let mut archive = match ZipArchive::new(Cursor::new(data)) {
        Ok(a) => a,
        Err(_) => return Err(()),
    };
    let mut member = match archive.by_name(name) {
        Ok(m) => m,
        Err(zip::result::ZipError::FileNotFound) => return Ok(None),
        Err(_) => return Err(()),
    };
    let mut s = String::new();
    match member.read_to_string(&mut s) {
        Ok(_) => Ok(Some(s)),
        Err(_) => Err(()),
    }
}

/// Opens the container and extracts the markup stream: the member named
/// `content.xml`.  Bytes that are no readable archive (or a member that
/// cannot be decompressed to text) are a container error; a readable
/// archive without that member lacks the content stream.
pub fn extract_content(data: &[u8]) -> (r: Result<String, ParseError>)
    ensures
        match r {
            Ok(s) => zip_member_of(data@, "content.xml"@) == Some(Some(s@)),
            Err(e) => match e {
                ParseError::Container => zip_member_of(data@, "content.xml"@) is None,
                ParseError::ContentMissing => zip_member_of(data@, "content.xml"@) == Some(
                    None::<Seq<char>>,
                ),
                _ => false,
            },
        },
{
    match zip_member(data, "content.xml") {
        Ok(Some(s)) => Ok(s),
        Ok(None) => Err(ParseError::ContentMissing),
        Err(_) => Err(ParseError::Container),
    }
}

} // verus!
