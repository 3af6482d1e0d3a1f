//! The Markdown-to-HTML collaborator, behind one trusted wrapper.
use vstd::prelude::*;

verus! {

/// Whether a byte string is valid UTF-8, as `str::from_utf8` decides it.
pub uninterp spec fn utf8_ok(bytes: Seq<u8>) -> bool;

/// The HTML that `markdown::to_html` renders for a text; a pure function of
/// the text alone.
pub uninterp spec fn md_html_of(text: Seq<u8>) -> Seq<u8>;

/// Relies on `markdown::to_html`, whose output depends on the input text
/// alone, and on `str::from_utf8` for the validity test on the raw bytes.
#[verifier::external_body]
pub(crate) fn markdown_to_html(src: &Vec<u8>) -> (r: Option<Vec<u8>>)
    ensures
        r is Some <==> utf8_ok(src@),
        r matches Some(v) ==> v@ == md_html_of(src@),
{
    match std::str::from_utf8(src) {
        Ok(text) => Some(markdown::to_html(text).into_bytes()),
        Err(_) => None,
    }
}

} // verus!
