//! The Liquid templating collaborator: parsing and rendering stand behind
//! trusted wrappers, and the template values are opaque to the pipeline.
//! Whether a text parses is a pure function of the text (`template_parse_ok`),
//! so parse outcomes carry exact contracts. What a render returns is not: the
//! standard grammar's date handling reads the clock (a template may render
//! "now"), so no contract may name rendered bytes or promise that a render
//! succeeds; the pipeline's own contracts speak of what surrounds them.
use vstd::prelude::*;

verus! {

#[verifier::external_type_specification]
#[verifier::external_body]
pub struct ExParser(liquid::Parser);

#[verifier::external_type_specification]
#[verifier::external_body]
pub struct ExTemplate(liquid::Template);

#[verifier::external_type_specification]
#[verifier::external_body]
pub struct ExValue(liquid::model::Value);

#[verifier::external_type_specification]
#[verifier::external_body]
pub struct ExInMemorySource(liquid::partials::InMemorySource);

/// A template parser: always the standard grammar, together with the partials
/// it was built with. Every `TemplateParser` comes from `build_parser`, so the
/// grammar a template text is parsed under is one fixed language.
pub struct TemplateParser {
    inner: liquid::Parser,
}

/// Relies on `liquid::partials::InMemorySource::new`: an empty partial set.
#[verifier::external_body]
fn partials_source_new() -> (r: liquid::partials::InMemorySource)
{
    liquid::partials::InMemorySource::new()
}

/// Relies on `liquid::partials::InMemorySource::add`: registers one partial's
/// text under its name.
#[verifier::external_body]
fn partials_source_add(
    source: &mut liquid::partials::InMemorySource,
    name: &Vec<u8>,
    text: &Vec<u8>,
)
{
    source.add(
        String::from_utf8_lossy(name).into_owned(),
        String::from_utf8_lossy(text).into_owned(),
    );
}

/// Relies on `liquid::ParserBuilder`: the standard grammar with the given
/// partials, compiled up front; a partial that does not compile surfaces as a
/// render error in the templates that include it.
#[verifier::external_body]
fn stdlib_parser(source: liquid::partials::InMemorySource) -> (r: Result<liquid::Parser, Vec<u8>>)
{
    let partials = liquid::partials::EagerCompiler::new(source);
    match liquid::ParserBuilder::with_stdlib().partials(partials).build() {
        Ok(p) => Ok(p),
        Err(e) => Err(e.to_string().into_bytes()),
    }
}

/// A parser over the standard grammar with the given partials, each a name and
/// its text.
pub fn build_parser(partials: &Vec<(Vec<u8>, Vec<u8>)>) -> (r: Result<TemplateParser, Vec<u8>>)
{
    let mut source = partials_source_new();
    let mut i: usize = 0;
    while i < partials.len()
        invariant
            i <= partials@.len(),
        decreases partials@.len() - i,
    {
        partials_source_add(&mut source, &partials[i].0, &partials[i].1);
        i += 1;
    }
    match stdlib_parser(source) {
        Ok(inner) => Ok(TemplateParser { inner }),
        Err(m) => Err(m),
    }
}

/// Whether a text is valid UTF-8 and parses as a template under the standard
/// grammar; a pure function of the text, since every `TemplateParser` of this
/// library carries that one grammar and parsing never consults the partials.
pub uninterp spec fn template_parse_ok(text: Seq<u8>) -> bool;

/// Relies on `liquid::Parser::parse`: under the fixed standard grammar the
/// outcome depends on the template text alone (partials are attached for
/// rendering, not consulted by parse). The raw bytes are checked as UTF-8
/// first, and either failure is returned as the renderer's message.
#[verifier::external_body]
pub(crate) fn parse_template(parser: &TemplateParser, text: &Vec<u8>) -> (r: Result<
    liquid::Template,
    Vec<u8>,
>)
    ensures
        r is Ok <==> template_parse_ok(text@),
{
    let s = match std::str::from_utf8(text) {
        Ok(s) => s,
        Err(e) => {
            return Err(e.to_string().into_bytes());
        },
    };
    match parser.inner.parse(s) {
        Ok(t) => Ok(t),
        Err(e) => Err(e.to_string().into_bytes()),
    }
}

/// Relies on `liquid::Template::render` with a globals object holding the one
/// flag `development`.
#[verifier::external_body]
pub(crate) fn render_page(template: &liquid::Template, development: bool) -> (r: Result<
    Vec<u8>,
    Vec<u8>,
>)
{
    let mut globals = liquid::Object::new();
    globals.insert("development".into(), liquid::model::Value::scalar(development));
    match template.render(&globals) {
        Ok(s) => Ok(s.into_bytes()),
        Err(e) => Err(e.to_string().into_bytes()),
    }
}

/// Relies on `liquid::Template::render` with a globals object holding the
/// rendered post body as `contents`, its title and publication text, and the
/// `development` flag.
#[verifier::external_body]
pub(crate) fn render_post(
    template: &liquid::Template,
    contents: &Vec<u8>,
    title: &Vec<u8>,
    published: &Vec<u8>,
    development: bool,
) -> (r: Result<Vec<u8>, Vec<u8>>)
{
    let mut globals = liquid::Object::new();
    globals.insert("contents".into(), text_value(contents));
    globals.insert("post_title".into(), text_value(title));
    globals.insert("post_published".into(), text_value(published));
    globals.insert("development".into(), liquid::model::Value::scalar(development));
    match template.render(&globals) {
        Ok(s) => Ok(s.into_bytes()),
        Err(e) => Err(e.to_string().into_bytes()),
    }
}

/// Relies on `liquid::model::Value::scalar`: a scalar string value for the
/// renderer, converted from the pipeline's bytes.
#[verifier::external_body]
pub(crate) fn text_value(text: &Vec<u8>) -> (r: liquid::model::Value)
{
    liquid::model::Value::scalar(String::from_utf8_lossy(text).into_owned())
}

/// Relies on `liquid::model::Object::insert`: an object value with one entry
/// per field of a post-list item, for the renderer.
#[verifier::external_body]
pub(crate) fn post_item_value(
    filename: &Vec<u8>,
    title: &Vec<u8>,
    description: &Vec<u8>,
    published: &Vec<u8>,
) -> (r: liquid::model::Value)
{
    let mut item = liquid::Object::new();
    item.insert("filename".into(), text_value(filename));
    item.insert("title".into(), text_value(title));
    item.insert("description".into(), text_value(description));
    item.insert("published".into(), text_value(published));
    liquid::model::Value::Object(item)
}

/// Relies on `liquid::Template::render` with a globals object holding the
/// items of one post-list page, the URLs of the neighbouring pages, and the
/// `development` flag.
#[verifier::external_body]
pub(crate) fn render_post_list_page(
    template: &liquid::Template,
    items: &Vec<liquid::model::Value>,
    previous: &Vec<u8>,
    next: &Vec<u8>,
    development: bool,
) -> (r: Result<Vec<u8>, Vec<u8>>)
{
    let mut globals = liquid::Object::new();
    globals.insert("posts".into(), liquid::model::Value::Array(items.clone()));
    globals.insert("previous".into(), text_value(previous));
    globals.insert("next".into(), text_value(next));
    globals.insert("development".into(), liquid::model::Value::scalar(development));
    match template.render(&globals) {
        Ok(s) => Ok(s.into_bytes()),
        Err(e) => Err(e.to_string().into_bytes()),
    }
}

} // verus!
