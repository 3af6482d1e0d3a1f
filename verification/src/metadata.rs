//! A post's metadata: a small TOML document beside the post, read through one
//! trusted wrapper around the `toml` crate.
use vstd::prelude::*;

use crate::BuildError;

verus! {

/// The mathematical value of a `PostMetadata`.
pub ghost struct PostMetadataModel {
    pub title: Seq<u8>,
    pub description: Seq<u8>,
    pub published: Seq<u8>,
}

/// What a post's metadata document must hold: a string title, a string
/// description, and a publication datetime, carried as its canonical text.
#[derive(Debug)]
pub struct PostMetadata {
    pub title: Vec<u8>,
    pub description: Vec<u8>,
    pub published: Vec<u8>,
}

impl View for PostMetadata {
    type V = PostMetadataModel;

    open spec fn view(&self) -> PostMetadataModel {
        PostMetadataModel {
            title: self.title@,
            description: self.description@,
            published: self.published@,
        }
    }
}

/// Whether a metadata document parses and holds the three expected fields.
pub uninterp spec fn post_meta_ok(text: Seq<u8>) -> bool;

/// The title field of a metadata document.
pub uninterp spec fn post_meta_title(text: Seq<u8>) -> Seq<u8>;

/// The description field of a metadata document.
pub uninterp spec fn post_meta_description(text: Seq<u8>) -> Seq<u8>;

/// The published field of a metadata document, as the datetime's canonical
/// text.
pub uninterp spec fn post_meta_published(text: Seq<u8>) -> Seq<u8>;

/// Relies on the `toml` crate: `toml::from_str` parsing the document into a
/// `Value`, its accessors `get`, `as_str` and `as_datetime`, and the
/// `Datetime` `Display` form. All are functions of the document text alone.
#[verifier::external_body]
fn read_post_metadata(text: &Vec<u8>) -> (r: Option<PostMetadata>)
    ensures
        r is Some <==> post_meta_ok(text@),
        r matches Some(m) ==> m.title@ == post_meta_title(text@) && m.description@
            == post_meta_description(text@) && m.published@ == post_meta_published(text@),
{
    let s = std::str::from_utf8(text).ok()?;
    let v: toml::Value = toml::from_str(s).ok()?;
    let title = v.get("title")?.as_str()?;
    let description = v.get("description")?.as_str()?;
    let published = v.get("published")?.as_datetime()?.to_string();
    Some(
        PostMetadata {
            title: title.as_bytes().to_vec(),
            description: description.as_bytes().to_vec(),
            published: published.into_bytes(),
        },
    )
}

/// Parses a post's metadata document; a document that does not parse or lacks
/// one of the fields is a metadata error, fatal to the build pass.
pub fn parse_post_metadata(text: &Vec<u8>) -> (r: Result<PostMetadata, BuildError>)
    ensures
        r is Ok <==> post_meta_ok(text@),
        r matches Ok(m) ==> {
            &&& m@.title == post_meta_title(text@)
            &&& m@.description == post_meta_description(text@)
            &&& m@.published == post_meta_published(text@)
        },
        r matches Err(e) ==> e is Metadata,
{
    match read_post_metadata(text) {
        Some(m) => Ok(m),
        None => Err(BuildError::Metadata),
    }
}

} // verus!
