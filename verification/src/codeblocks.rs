//! Fenced code blocks in rendered post HTML. A fixed pattern finds each
//! `<pre><code>` element; the pipeline then rewrites every one into its
//! code-listing form, verbatim, entities untouched. This crate does no
//! grammar-based span highlighting: such a highlighter needs a compiled
//! grammar, which no dependency here provides, so every block — whatever
//! language it declares — gets the plain listing form.
use vstd::prelude::*;
use vstd::string::*;

use crate::bytestr::{append_bytes, str_bytes, sub_bytes};

verus! {

/// The mathematical value of a `CodeBlock`.
pub ghost struct CodeBlockModel {
    pub start: int,
    pub end: int,
    pub language: Seq<u8>,
    pub code: Seq<u8>,
}

/// One fenced code block found in rendered HTML: the byte range of the whole
/// element in the text it was found in, the declared language (empty when none
/// was declared), and the code inside the element.
#[derive(Debug)]
pub struct CodeBlock {
    pub start: usize,
    pub end: usize,
    pub language: Vec<u8>,
    pub code: Vec<u8>,
}

impl View for CodeBlock {
    type V = CodeBlockModel;

    open spec fn view(&self) -> CodeBlockModel {
        CodeBlockModel {
            start: self.start as int,
            end: self.end as int,
            language: self.language@,
            code: self.code@,
        }
    }
}

/// The code blocks that the fixed pattern finds in a text, in order; a pure
/// function of the text alone.
pub uninterp spec fn code_blocks_of(text: Seq<u8>) -> Seq<CodeBlockModel>;

/// Relies on `regex::bytes::Regex::captures_iter` with the fixed pattern
/// `<pre>\s*<code( class="language-(.*?)")?>(.+?)</code>\s*</pre>`, multi-line
/// and dot-matches-new-line: successive matches come in order and do not
/// overlap; group 2 is the language, group 3 the code. The fixed pattern is
/// valid, so building it cannot fail.
#[verifier::external_body]
fn find_code_blocks(text: &Vec<u8>) -> (r: Vec<CodeBlock>)
    ensures
        r@.map_values(|b: CodeBlock| b@) == code_blocks_of(text@),
        forall|i: int|
            0 <= i < r@.len() ==> (#[trigger] r@[i]).start <= r@[i].end <= text@.len(),
        forall|i: int, j: int|
            0 <= i < j < r@.len() ==> (#[trigger] r@[i]).end <= (#[trigger] r@[j]).start,
{
    let re = regex::bytes::RegexBuilder::new(
        r#"<pre>\s*<code( class="language-(.*?)")?>(.+?)</code>\s*</pre>"#,
    ).multi_line(true).dot_matches_new_line(true).build().unwrap();
    let mut out = Vec::new();
    for c in re.captures_iter(text) {
        let all = c.get(0).unwrap();
        let code = c.get(3).unwrap().as_bytes().to_vec();
        let language = c.get(2).map(|m| m.as_bytes().to_vec()).unwrap_or_default();
        out.push(CodeBlock { start: all.start(), end: all.end(), language, code });
    }
    out
}

/// A code block's listing form: the code wrapped as a code-listing element.
pub open spec fn spec_listing(code: Seq<u8>) -> Seq<u8> {
    "<pre class=\"code-listing\"><code>".spec_bytes() + code + "</code></pre>".spec_bytes()
}

/// The code wrapped as a code-listing element, as `spec_listing` describes.
fn listing(code: &Vec<u8>) -> (r: Vec<u8>)
    ensures
        r@ == spec_listing(code@),
{
    let mut out = str_bytes("<pre class=\"code-listing\"><code>");
    append_bytes(&mut out, code);
    let close = str_bytes("</code></pre>");
    append_bytes(&mut out, &close);
    out
}

/// `text` from `pos` on, with each block of `blocks` replaced by its listing
/// form and the bytes between blocks kept.
pub open spec fn spec_rewritten_from(text: Seq<u8>, blocks: Seq<CodeBlockModel>, pos: int) -> Seq<
    u8,
>
    decreases blocks.len(),
{
    if blocks.len() == 0 {
        text.subrange(pos, text.len() as int)
    } else {
        text.subrange(pos, blocks[0].start) + spec_listing(blocks[0].code) + spec_rewritten_from(
            text,
            blocks.drop_first(),
            blocks[0].end,
        )
    }
}

/// `text` with every found code block replaced by its listing form.
pub open spec fn spec_decorated(text: Seq<u8>) -> Seq<u8> {
    spec_rewritten_from(text, code_blocks_of(text), 0)
}

/// Rewrites every code block of `text` into its listing form, as
/// `spec_decorated` describes.
pub fn decorate_code_blocks(text: &Vec<u8>) -> (r: Vec<u8>)
    ensures
        r@ == spec_decorated(text@),
{
    let blocks = find_code_blocks(text);
    let ghost bm = blocks@.map_values(|b: CodeBlock| b@);
    let mut out: Vec<u8> = Vec::new();
    let mut pos: usize = 0;
    let mut i: usize = 0;
    proof {
        assert(bm.skip(0) =~= bm);
    }
    while i < blocks.len()
        invariant
            i <= blocks@.len(),
            bm == blocks@.map_values(|b: CodeBlock| b@),
            bm == code_blocks_of(text@),
            forall|k: int| 0 <= k < blocks@.len() ==> (#[trigger] blocks@[k]).start <= blocks@[k].end <= text@.len(),
            forall|k: int, j: int|
                0 <= k < j < blocks@.len() ==> (#[trigger] blocks@[k]).end <= (
                #[trigger] blocks@[j]).start,
            pos <= text@.len(),
            i < blocks@.len() ==> pos <= blocks@[i as int].start,
            spec_decorated(text@) == out@ + spec_rewritten_from(text@, bm.skip(i as int), pos as int),
        decreases blocks@.len() - i,
    {
        let b_start = blocks[i].start;
        let b_end = blocks[i].end;
        let ghost prev_out = out@;
        let between = sub_bytes(text, pos, b_start);
        append_bytes(&mut out, &between);
        let wrapped = listing(&blocks[i].code);
        append_bytes(&mut out, &wrapped);
        proof {
            assert(bm.skip(i as int)[0] == blocks@[i as int]@);
            assert(bm.skip(i as int).drop_first() =~= bm.skip(i + 1 as int));
            assert(out@ == prev_out + text@.subrange(pos as int, b_start as int) + spec_listing(
                blocks@[i as int].code@,
            ));
        }
        pos = b_end;
        i += 1;
        proof {
            if i < blocks@.len() {
                assert(blocks@[i - 1].end <= blocks@[i as int].start);
            }
        }
    }
    proof {
        assert(bm.skip(i as int) =~= Seq::<CodeBlockModel>::empty());
    }
    let rest = sub_bytes(text, pos, text.len());
    append_bytes(&mut out, &rest);
    out
}

} // verus!
