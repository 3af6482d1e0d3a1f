//! The concrete processors and their dispatch set. Each one claims paths by a
//! pure predicate, turns a claimed file into a resource, and may contribute
//! aggregate resources at flush time; the `Processor` enum is the closed set
//! the builder dispatches over, in registration order.
use vstd::prelude::*;
use vstd::string::*;

use crate::bytestr::{
    copy_bytes, bytes_eq, file_name, spec_decimal, spec_extension, spec_file_name, spec_is_under,
    spec_with_extension, str_bytes, is_under, push_decimal, with_extension,
};
use crate::codeblocks::decorate_code_blocks;
use crate::markup::{markdown_to_html, utf8_ok};
use crate::metadata::{
    parse_post_metadata, post_meta_description, post_meta_ok, post_meta_published,
    post_meta_title,
};
use crate::store::{Resource, ResourceModel, URLPath, URLPathModel};
use crate::template::{
    parse_template, post_item_value, render_page, render_post, render_post_list_page,
    template_parse_ok, TemplateParser,
};
use crate::{BuildError, ResourceProcessor, SourceFile};

verus! {

// ------------------------------------------------------------------
// Static assets
// ------------------------------------------------------------------
/// Serves static assets verbatim, addressed by their source path.
pub struct StaticProcessor {}

/// The extensions the static processor claims.
pub open spec fn spec_static_extension(e: Seq<u8>) -> bool {
    ||| e == "css".spec_bytes()
    ||| e == "html".spec_bytes()
    ||| e == "jpg".spec_bytes()
    ||| e == "jpeg".spec_bytes()
    ||| e == "woff2".spec_bytes()
}

/// Which paths the static processor claims: those with a static extension.
pub open spec fn spec_static_matches(path: Seq<u8>) -> bool {
    match spec_extension(path) {
        Some(e) => spec_static_extension(e),
        None => false,
    }
}

/// The resource a static file becomes: its bytes unchanged, addressed by its
/// source path.
pub open spec fn spec_static_resource(file: SourceFile) -> ResourceModel {
    ResourceModel {
        original_path: file.path@,
        url_path: URLPathModel::UseOriginalPath,
        contents: file.contents@,
    }
}

/// The sentinel resource a claimed template file becomes: empty contents, so
/// it is never stored.
pub open spec fn spec_sentinel_resource(file: SourceFile) -> ResourceModel {
    ResourceModel {
        original_path: file.path@,
        url_path: URLPathModel::UseOriginalPath,
        contents: Seq::empty(),
    }
}

impl ResourceProcessor for StaticProcessor {
    open spec fn wf(&self) -> bool {
        true
    }

    open spec fn matches_spec(&self, path: Seq<u8>) -> bool {
        spec_static_matches(path)
    }

    fn matches(&self, path: &Vec<u8>) -> (b: bool)
        ensures
            b == self.matches_spec(path@),
    {
        match crate::bytestr::extension(path) {
            None => false,
            Some(e) => {
                bytes_eq(&e, &str_bytes("css")) || bytes_eq(&e, &str_bytes("html")) || bytes_eq(
                    &e,
                    &str_bytes("jpg"),
                ) || bytes_eq(&e, &str_bytes("jpeg")) || bytes_eq(&e, &str_bytes("woff2"))
            },
        }
    }

    fn process(&mut self, file: &SourceFile) -> (r: Result<Resource, BuildError>)
        ensures
            r matches Ok(res) && res@ == spec_static_resource(*file),
            *final(self) == *old(self),
    {
        Ok(
            Resource {
                original_path: copy_bytes(&file.path),
                url_path: URLPath::UseOriginalPath,
                contents: copy_bytes(&file.contents),
            },
        )
    }
}

// ------------------------------------------------------------------
// Page templates
// ------------------------------------------------------------------
/// Renders standalone template pages: every template file outside the partials
/// directory becomes an HTML page of the same name.
pub struct LiquidProcessor {
    partials_dir: Vec<u8>,
    parser: TemplateParser,
    development: bool,
}

/// Which paths the page-template processor claims: template files that do not
/// lie in the partials directory.
pub open spec fn spec_liquid_matches(partials_dir: Seq<u8>, path: Seq<u8>) -> bool {
    &&& match spec_extension(path) {
        Some(e) => e == "liquid".spec_bytes(),
        None => false,
    }
    &&& !spec_is_under(partials_dir, path)
}

impl LiquidProcessor {
    /// The partials directory this processor was built with.
    pub closed spec fn partials_dir_spec(&self) -> Seq<u8> {
        self.partials_dir@
    }

    /// The development flag this processor renders with.
    pub closed spec fn development_spec(&self) -> bool {
        self.development
    }

    /// A page-template processor over the given parser; files under
    /// `partials_dir` are building blocks of other pages, never pages.
    pub fn new(partials_dir: Vec<u8>, parser: TemplateParser, development: bool) -> (r:
        LiquidProcessor)
        ensures
            r.partials_dir_spec() == partials_dir@,
            r.development_spec() == development,
    {
        LiquidProcessor { partials_dir, parser, development }
    }
}

impl ResourceProcessor for LiquidProcessor {
    open spec fn wf(&self) -> bool {
        true
    }

    open spec fn matches_spec(&self, path: Seq<u8>) -> bool {
        spec_liquid_matches(self.partials_dir_spec(), path)
    }

    fn matches(&self, path: &Vec<u8>) -> (b: bool)
        ensures
            b == self.matches_spec(path@),
    {
        let ext_ok = match crate::bytestr::extension(path) {
            None => false,
            Some(e) => bytes_eq(&e, &str_bytes("liquid")),
        };
        ext_ok && !is_under(&self.partials_dir, path)
    }

    fn process(&mut self, file: &SourceFile) -> (r: Result<Resource, BuildError>)
        ensures
            r matches Ok(res) ==> res@.original_path == file.path@ && res@.url_path
                == URLPathModel::Filepath(spec_with_extension(file.path@, "html".spec_bytes())),
            r matches Err(e) ==> e is Template,
            !template_parse_ok(file.contents@) ==> r is Err,
            r is Ok ==> template_parse_ok(file.contents@),
            *final(self) == *old(self),
    {
        let template = match parse_template(&self.parser, &file.contents) {
            Ok(t) => t,
            Err(m) => {
                return Err(BuildError::Template(m));
            },
        };
        let contents = match render_page(&template, self.development) {
            Ok(b) => b,
            Err(m) => {
                return Err(BuildError::Template(m));
            },
        };
        let new_path = with_extension(&file.path, &str_bytes("html"));
        Ok(
            Resource {
                original_path: copy_bytes(&file.path),
                url_path: URLPath::Filepath(new_path),
                contents,
            },
        )
    }
}

} // verus!
// ------------------------------------------------------------------
// Posts
// ------------------------------------------------------------------
use vstd::prelude::*;
use vstd::seq_lib::lemma_multiset_commutative;
use vstd::multiset::Multiset;

verus! {

/// The mathematical value of a `PostItem`.
pub ghost struct PostItemModel {
    pub filename: Seq<u8>,
    pub title: Seq<u8>,
    pub description: Seq<u8>,
    pub published: Seq<u8>,
}

/// One post as the post list sees it: the output file name and the metadata
/// fields that the list pages render.
#[derive(Debug)]
pub struct PostItem {
    pub filename: Vec<u8>,
    pub title: Vec<u8>,
    pub description: Vec<u8>,
    pub published: Vec<u8>,
}

impl View for PostItem {
    type V = PostItemModel;

    open spec fn view(&self) -> PostItemModel {
        PostItemModel {
            filename: self.filename@,
            title: self.title@,
            description: self.description@,
            published: self.published@,
        }
    }
}

/// Lexicographic byte order: `a` is at most `b`.
pub open spec fn spec_le_bytes(a: Seq<u8>, b: Seq<u8>) -> bool
    decreases a.len(),
{
    if a.len() == 0 {
        true
    } else if b.len() == 0 {
        false
    } else if a[0] < b[0] {
        true
    } else if a[0] > b[0] {
        false
    } else {
        spec_le_bytes(a.drop_first(), b.drop_first())
    }
}

/// Any two byte strings are ordered one way or the other.
pub proof fn lemma_le_bytes_total(a: Seq<u8>, b: Seq<u8>)
    ensures
        spec_le_bytes(a, b) || spec_le_bytes(b, a),
    decreases a.len(),
{
    if a.len() > 0 && b.len() > 0 && a[0] == b[0] {
        lemma_le_bytes_total(a.drop_first(), b.drop_first());
    }
}

/// Lexicographic byte order is transitive.
pub proof fn lemma_le_bytes_trans(a: Seq<u8>, b: Seq<u8>, c: Seq<u8>)
    requires
        spec_le_bytes(a, b),
        spec_le_bytes(b, c),
    ensures
        spec_le_bytes(a, c),
    decreases a.len(),
{
    if a.len() > 0 && b.len() > 0 && c.len() > 0 && a[0] == b[0] && b[0] == c[0] {
        lemma_le_bytes_trans(a.drop_first(), b.drop_first(), c.drop_first());
    }
}

/// Decides `spec_le_bytes(a@, b@)`.
pub fn le_bytes(a: &Vec<u8>, b: &Vec<u8>) -> (r: bool)
    ensures
        r == spec_le_bytes(a@, b@),
{
    let a_len: usize = a.len();
    let b_len: usize = b.len();
    let mut i: usize = 0;
    proof {
        assert(a@.skip(0) =~= a@);
        assert(b@.skip(0) =~= b@);
    }
    loop
        invariant
            i <= a@.len(),
            i <= b@.len(),
            a_len == a@.len(),
            b_len == b@.len(),
            spec_le_bytes(a@, b@) == spec_le_bytes(a@.skip(i as int), b@.skip(i as int)),
        decreases a@.len() - i,
    {
        if i == a_len {
            return true;
        }
        if i == b_len {
            return false;
        }
        let x = a[i];
        let y = b[i];
        if x < y {
            return true;
        }
        if x > y {
            return false;
        }
        proof {
            assert(a@.skip(i as int).drop_first() =~= a@.skip(i + 1 as int));
            assert(b@.skip(i as int).drop_first() =~= b@.skip(i + 1 as int));
        }
        i += 1;
    }
}

/// Descending order on posts: `a` comes no later than `b` when `b`'s
/// publication text is at most `a`'s.
pub open spec fn spec_posts_ordered(a: PostItemModel, b: PostItemModel) -> bool {
    spec_le_bytes(b.published, a.published)
}

/// A post sequence sorted by publication text, newest first.
pub open spec fn spec_sorted_desc(items: Seq<PostItemModel>) -> bool {
    forall|i: int, j: int|
        0 <= i <= j < items.len() ==> spec_posts_ordered(#[trigger] items[i], #[trigger] items[j])
}

/// Inserting an element anywhere adds exactly it to the multiset.
proof fn lemma_insert_to_multiset<A>(s: Seq<A>, k: int, x: A)
    requires
        0 <= k <= s.len(),
    ensures
        s.insert(k, x).to_multiset() == s.to_multiset().insert(x),
{
    let front = s.take(k);
    let back = s.skip(k);
    assert(s.insert(k, x) =~= front + (seq![x] + back));
    assert(s =~= front + back);
    lemma_multiset_commutative(front, seq![x] + back);
    lemma_multiset_commutative(seq![x], back);
    lemma_multiset_commutative(front, back);
    seq![x].to_multiset_ensures();
    assert(seq![x] =~= Seq::<A>::empty().push(x));
    Seq::<A>::empty().to_multiset_ensures();
    assert(Seq::<A>::empty().to_multiset() =~= Multiset::<A>::empty());
    assert(seq![x].to_multiset() =~= Multiset::<A>::empty().insert(x));
    assert(s.insert(k, x).to_multiset() =~= s.to_multiset().insert(x));
}

/// The views of a post vector.
pub open spec fn spec_post_views(items: Seq<PostItem>) -> Seq<PostItemModel> {
    items.map_values(|p: PostItem| p@)
}

proof fn lemma_post_views_insert(s: Seq<PostItem>, k: int, x: PostItem)
    requires
        0 <= k <= s.len(),
    ensures
        spec_post_views(s.insert(k, x)) =~= spec_post_views(s).insert(k, x@),
{
    let a = spec_post_views(s.insert(k, x));
    let b = spec_post_views(s).insert(k, x@);
    s.insert_ensures(k, x);
    spec_post_views(s).insert_ensures(k, x@);
    assert forall|i: int| 0 <= i < a.len() implies a[i] == b[i] by {
        if i < k {
        } else if i == k {
        } else {
            assert(s.insert(k, x)[i] == s[i - 1]);
            assert(spec_post_views(s).insert(k, x@)[i] == spec_post_views(s)[i - 1]);
        }
    }
}

/// Sorts posts by publication text, newest first; the result holds exactly the
/// given items. This is the order in which the post list is paginated.
pub fn sort_posts_desc(input: Vec<PostItem>) -> (r: Vec<PostItem>)
    ensures
        spec_sorted_desc(spec_post_views(r@)),
        spec_post_views(r@).to_multiset() == spec_post_views(input@).to_multiset(),
{
    let mut rest = input;
    let mut out: Vec<PostItem> = Vec::new();
    proof {
        assert(spec_post_views(rest@).to_multiset().add(
            spec_post_views(out@).to_multiset(),
        ) =~= spec_post_views(rest@).to_multiset()) by {
            assert(spec_post_views(out@) =~= Seq::<PostItemModel>::empty());
            Seq::<PostItemModel>::empty().to_multiset_ensures();
            assert(spec_post_views(out@).to_multiset() =~= Multiset::<PostItemModel>::empty());
        }
    }
    while rest.len() > 0
        invariant
            spec_sorted_desc(spec_post_views(out@)),
            spec_post_views(rest@).to_multiset().add(spec_post_views(out@).to_multiset())
                == spec_post_views(input@).to_multiset(),
        decreases rest@.len(),
    {
        let ghost old_rest = rest@;
        let ghost old_out = out@;
        let x = rest.pop().unwrap();
        proof {
            assert(old_rest.drop_last() =~= old_rest.remove(old_rest.len() - 1));
            old_rest.to_multiset_ensures();
            spec_post_views(old_rest).to_multiset_ensures();
            assert(spec_post_views(old_rest.drop_last()) =~= spec_post_views(
                old_rest,
            ).drop_last());
            assert(spec_post_views(old_rest).drop_last() =~= spec_post_views(old_rest).remove(
                spec_post_views(old_rest).len() - 1,
            ));
            assert(spec_post_views(old_rest.drop_last()).to_multiset() =~= spec_post_views(
                old_rest,
            ).to_multiset().remove(x@));
        }
        let mut k: usize = 0;
        while k < out.len() && !le_bytes(&out[k].published, &x.published)
            invariant
                k <= out@.len(),
                forall|j: int|
                    0 <= j < k ==> !spec_le_bytes(
                        (#[trigger] spec_post_views(out@)[j]).published,
                        x@.published,
                    ),
            decreases out@.len() - k,
        {
            k += 1;
        }
        let ghost before_insert = out@;
        let ghost ki = k as int;
        out.insert(k, x);
        proof {
            lemma_post_views_insert(before_insert, ki, x);
            lemma_insert_to_multiset(spec_post_views(before_insert), ki, x@);
            let m = spec_post_views(before_insert);
            let m2 = spec_post_views(out@);
            assert(m2 =~= m.insert(ki, x@));
            m.insert_ensures(ki, x@);
            // the new sequence stays sorted
            assert forall|i: int, j: int|
                0 <= i <= j < m2.len() implies spec_posts_ordered(m2[i], m2[j]) by {
                if i < ki && j < ki {
                } else if i < ki && j == ki {
                    // m2[i] is an old element before the insertion point
                    assert(!spec_le_bytes(m[i].published, x@.published));
                    lemma_le_bytes_total(m[i].published, x@.published);
                } else if i == ki && j == ki {
                    lemma_le_bytes_total(x@.published, x@.published);
                } else if i == ki && j > ki {
                    // x goes before out[k], which was <= x, and order is transitive
                    assert(m2[j] == m[j - 1]);
                    assert(spec_le_bytes(m[ki].published, x@.published));
                    if j - 1 > ki {
                        assert(spec_posts_ordered(m[ki], m[j - 1]));
                        lemma_le_bytes_trans(m[j - 1].published, m[ki].published, x@.published);
                    }
                } else if i < ki && j > ki {
                    assert(m2[i] == m[i] && m2[j] == m[j - 1]);
                    assert(spec_posts_ordered(m[i], m[j - 1]));
                } else {
                    assert(m2[i] == m[i - 1] && m2[j] == m[j - 1]);
                    assert(spec_posts_ordered(m[i - 1], m[j - 1]));
                }
            }
            // multiset bookkeeping: the item moved from rest to out
            assert(spec_post_views(rest@).to_multiset().add(
                spec_post_views(out@).to_multiset(),
            ) =~= spec_post_views(input@).to_multiset()) by {
                spec_post_views(old_out).to_multiset_ensures();
            }
        }
    }
    proof {
        assert(spec_post_views(rest@) =~= Seq::<PostItemModel>::empty());
        Seq::<PostItemModel>::empty().to_multiset_ensures();
        assert(spec_post_views(rest@).to_multiset() =~= Multiset::<PostItemModel>::empty());
        assert(spec_post_views(out@).to_multiset() =~= spec_post_views(input@).to_multiset());
    }
    out
}

} // verus!
verus! {

/// A page's output URL: the first page is the posts index, later pages are
/// numbered.
pub open spec fn spec_page_url(i: nat) -> Seq<u8> {
    if i == 0 {
        "posts/index.html".spec_bytes()
    } else {
        "posts/posts-".spec_bytes() + spec_decimal(i) + ".html".spec_bytes()
    }
}

/// The URL a page links back to: empty on the first page.
pub open spec fn spec_prev_url(i: nat) -> Seq<u8> {
    if i == 0 {
        Seq::empty()
    } else if i == 1 {
        "/posts/index.html".spec_bytes()
    } else {
        "/posts/posts-".spec_bytes() + spec_decimal((i - 1) as nat) + ".html".spec_bytes()
    }
}

/// The URL a page links forward to: empty on the last page.
pub open spec fn spec_next_url(i: nat, last: bool) -> Seq<u8> {
    if last {
        Seq::empty()
    } else {
        "posts-".spec_bytes() + spec_decimal((i + 1) as nat) + ".html".spec_bytes()
    }
}

/// How many list pages `n` posts need, ten posts to a page.
pub open spec fn spec_page_count(n: nat) -> nat {
    if n == 0 {
        0
    } else {
        (n - 1) as nat / 10 + 1
    }
}

/// The page URL, as `spec_page_url` describes it.
pub fn page_url(i: usize) -> (r: Vec<u8>)
    ensures
        r@ == spec_page_url(i as nat),
{
    if i == 0 {
        str_bytes("posts/index.html")
    } else {
        let mut out = str_bytes("posts/posts-");
        push_decimal(&mut out, i as u64);
        let tail = str_bytes(".html");
        crate::bytestr::append_bytes(&mut out, &tail);
        out
    }
}

/// The back link, as `spec_prev_url` describes it.
pub fn prev_url(i: usize) -> (r: Vec<u8>)
    ensures
        r@ == spec_prev_url(i as nat),
{
    if i == 0 {
        Vec::new()
    } else if i == 1 {
        str_bytes("/posts/index.html")
    } else {
        let mut out = str_bytes("/posts/posts-");
        push_decimal(&mut out, (i - 1) as u64);
        let tail = str_bytes(".html");
        crate::bytestr::append_bytes(&mut out, &tail);
        out
    }
}

/// The forward link, as `spec_next_url` describes it.
pub fn next_url(i: usize, last: bool) -> (r: Vec<u8>)
    requires
        !last ==> i < usize::MAX,
    ensures
        r@ == spec_next_url(i as nat, last),
{
    if last {
        Vec::new()
    } else {
        let mut out = str_bytes("posts-");
        push_decimal(&mut out, (i + 1) as u64);
        let tail = str_bytes(".html");
        crate::bytestr::append_bytes(&mut out, &tail);
        out
    }
}

/// A fresh copy of a post item.
fn duplicate_post(p: &PostItem) -> (r: PostItem)
    ensures
        r@ == p@,
{
    PostItem {
        filename: copy_bytes(&p.filename),
        title: copy_bytes(&p.title),
        description: copy_bytes(&p.description),
        published: copy_bytes(&p.published),
    }
}

/// Renders posts: a file under the posts directory becomes an HTML page
/// through the post template, its metadata is accumulated, and at flush time
/// the accumulated posts become list pages, newest first, ten to a page. The
/// two template files themselves are claimed too, so that no other processor
/// publishes them; they produce an empty sentinel resource that is never
/// stored.
pub struct PostsProcessor {
    posts_dir: Vec<u8>,
    posts_template_path: Vec<u8>,
    post_template: liquid::Template,
    post_list_template_path: Vec<u8>,
    post_list_template: liquid::Template,
    posts: Vec<PostItem>,
    development: bool,
}

/// Which paths the posts processor claims: its two template files, and
/// markdown files under the posts directory.
pub open spec fn spec_posts_matches(
    posts_dir: Seq<u8>,
    template_path: Seq<u8>,
    list_template_path: Seq<u8>,
    path: Seq<u8>,
) -> bool {
    ||| path == template_path
    ||| path == list_template_path
    ||| (spec_is_under(posts_dir, path) && match spec_extension(path) {
        Some(e) => e == "md".spec_bytes() || e == "markdown".spec_bytes(),
        None => false,
    })
}

/// The post-list item a processed post contributes, a pure function of the
/// post's path and its metadata document.
pub open spec fn spec_post_item_of(path: Seq<u8>, meta_text: Seq<u8>) -> PostItemModel {
    PostItemModel {
        filename: spec_file_name(spec_with_extension(path, "html".spec_bytes())),
        title: post_meta_title(meta_text),
        description: post_meta_description(meta_text),
        published: post_meta_published(meta_text),
    }
}

impl PostsProcessor {
    /// The posts directory this processor was built with.
    pub closed spec fn posts_dir_spec(&self) -> Seq<u8> {
        self.posts_dir@
    }

    /// The path of the single-post template.
    pub closed spec fn template_path_spec(&self) -> Seq<u8> {
        self.posts_template_path@
    }

    /// The path of the post-list template.
    pub closed spec fn list_template_path_spec(&self) -> Seq<u8> {
        self.post_list_template_path@
    }

    /// The posts accumulated so far during per-file processing.
    pub closed spec fn pending_posts(&self) -> Seq<PostItemModel> {
        spec_post_views(self.posts@)
    }

    /// The development flag this processor renders with.
    pub closed spec fn development_spec(&self) -> bool {
        self.development
    }

    /// Whether `path` is one of the two template files: claimed, but with no
    /// page of their own.
    pub open spec fn is_template_path(&self, path: Seq<u8>) -> bool {
        path == self.template_path_spec() || path == self.list_template_path_spec()
    }

    /// A posts processor whose two templates are parsed up front from the
    /// given sources; a template that does not parse is fatal.
    pub fn new(
        posts_dir: Vec<u8>,
        posts_template_path: Vec<u8>,
        posts_template_text: &Vec<u8>,
        post_list_template_path: Vec<u8>,
        post_list_template_text: &Vec<u8>,
        parser: &TemplateParser,
        development: bool,
    ) -> (r: Result<PostsProcessor, BuildError>)
        ensures
            r is Ok <==> template_parse_ok(posts_template_text@) && template_parse_ok(
                post_list_template_text@,
            ),
            r matches Ok(p) ==> {
                &&& p.posts_dir_spec() == posts_dir@
                &&& p.template_path_spec() == posts_template_path@
                &&& p.list_template_path_spec() == post_list_template_path@
                &&& p.pending_posts() == Seq::<PostItemModel>::empty()
                &&& p.development_spec() == development
            },
            r matches Err(e) ==> e is Template,
    {
        let post_template = match parse_template(parser, posts_template_text) {
            Ok(t) => t,
            Err(m) => {
                return Err(BuildError::Template(m));
            },
        };
        let post_list_template = match parse_template(parser, post_list_template_text) {
            Ok(t) => t,
            Err(m) => {
                return Err(BuildError::Template(m));
            },
        };
        let p = PostsProcessor {
            posts_dir,
            posts_template_path,
            post_template,
            post_list_template_path,
            post_list_template,
            posts: Vec::new(),
            development,
        };
        proof {
            assert(p.pending_posts() =~= Seq::<PostItemModel>::empty());
        }
        Ok(p)
    }

    /// One post-list page: the items handed in, framed by its neighbour links,
    /// addressed by its literal page URL.
    fn render_post_list(&self, i: usize, last: bool, chunk: &Vec<PostItem>) -> (r: Result<
        Resource,
        BuildError,
    >)
        requires
            !last ==> i < usize::MAX,
        ensures
            r matches Ok(res) ==> res@.original_path == self.list_template_path_spec()
                && res@.url_path == URLPathModel::Absolute(spec_page_url(i as nat)),
            r matches Err(e) ==> e is Template,
    {
        let new_path = page_url(i);
        let previous = prev_url(i);
        let next = next_url(i, last);
        let mut items: Vec<liquid::model::Value> = Vec::new();
        let mut j: usize = 0;
        while j < chunk.len()
            invariant
                j <= chunk@.len(),
            decreases chunk@.len() - j,
        {
            items.push(
                post_item_value(
                    &chunk[j].filename,
                    &chunk[j].title,
                    &chunk[j].description,
                    &chunk[j].published,
                ),
            );
            j += 1;
        }
        match render_post_list_page(
            &self.post_list_template,
            &items,
            &previous,
            &next,
            self.development,
        ) {
            Ok(b) => Ok(
                Resource {
                    original_path: copy_bytes(&self.post_list_template_path),
                    url_path: URLPath::Absolute(new_path),
                    contents: b,
                },
            ),
            Err(m) => Err(BuildError::Template(m)),
        }
    }
}

impl ResourceProcessor for PostsProcessor {
    open spec fn wf(&self) -> bool {
        true
    }

    open spec fn matches_spec(&self, path: Seq<u8>) -> bool {
        spec_posts_matches(
            self.posts_dir_spec(),
            self.template_path_spec(),
            self.list_template_path_spec(),
            path,
        )
    }

    fn matches(&self, path: &Vec<u8>) -> (b: bool)
        ensures
            b == self.matches_spec(path@),
    {
        if bytes_eq(path, &self.posts_template_path) || bytes_eq(
            path,
            &self.post_list_template_path,
        ) {
            return true;
        }
        let ext_ok = match crate::bytestr::extension(path) {
            None => false,
            Some(e) => bytes_eq(&e, &str_bytes("md")) || bytes_eq(&e, &str_bytes("markdown")),
        };
        is_under(&self.posts_dir, path) && ext_ok
    }

    fn process(&mut self, file: &SourceFile) -> (r: Result<Resource, BuildError>)
        ensures
            final(self).posts_dir_spec() == old(self).posts_dir_spec(),
            final(self).template_path_spec() == old(self).template_path_spec(),
            final(self).list_template_path_spec() == old(self).list_template_path_spec(),
            final(self).development_spec() == old(self).development_spec(),
            old(self).is_template_path(file.path@) ==> (r matches Ok(res) && res@ == (ResourceModel {
                original_path: file.path@,
                url_path: URLPathModel::UseOriginalPath,
                contents: Seq::empty(),
            }) && *final(self) == *old(self)),
            !old(self).is_template_path(file.path@) ==> {
                &&& r is Err ==> *final(self) == *old(self)
                &&& (!utf8_ok(file.contents@) ==> (r matches Err(e) && e is InvalidUtf8))
                &&& (utf8_ok(file.contents@) && file.metadata is None ==> (r matches Err(e)
                    && e is Metadata))
                &&& (file.metadata matches Some(t) && utf8_ok(file.contents@) && !post_meta_ok(t@)
                    ==> (r matches Err(e) && e is Metadata))
                &&& (file.metadata matches Some(t) && utf8_ok(file.contents@) && post_meta_ok(t@)
                    ==> (r matches Err(e) ==> e is Template))
                &&& (r matches Ok(res) ==> {
                    &&& file.metadata is Some
                    &&& res@.original_path == file.path@
                    &&& res@.url_path == URLPathModel::Filepath(
                        spec_with_extension(file.path@, "html".spec_bytes()),
                    )
                    &&& final(self).pending_posts() == old(self).pending_posts().push(
                        spec_post_item_of(file.path@, file.metadata->0@),
                    )
                })
            },
    {
        if bytes_eq(&file.path, &self.posts_template_path) || bytes_eq(
            &file.path,
            &self.post_list_template_path,
        ) {
            return Ok(
                Resource {
                    original_path: copy_bytes(&file.path),
                    url_path: URLPath::UseOriginalPath,
                    contents: Vec::new(),
                },
            );
        }
        let html = match markdown_to_html(&file.contents) {
            Some(h) => h,
            None => {
                return Err(BuildError::InvalidUtf8);
            },
        };
        let meta_text = match &file.metadata {
            Some(t) => t,
            None => {
                return Err(BuildError::Metadata);
            },
        };
        let meta = match parse_post_metadata(meta_text) {
            Ok(m) => m,
            Err(e) => {
                return Err(e);
            },
        };
        let rendered = match render_post(
            &self.post_template,
            &html,
            &meta.title,
            &meta.published,
            self.development,
        ) {
            Ok(b) => b,
            Err(m) => {
                return Err(BuildError::Template(m));
            },
        };
        let contents = decorate_code_blocks(&rendered);
        let new_path = with_extension(&file.path, &str_bytes("html"));
        let filename = file_name(&new_path);
        let ghost before = self.posts@;
        self.posts.push(
            PostItem {
                filename,
                title: meta.title,
                description: meta.description,
                published: meta.published,
            },
        );
        proof {
            assert(spec_post_views(self.posts@) =~= spec_post_views(before).push(
                spec_post_item_of(file.path@, file.metadata->0@),
            ));
        }
        Ok(
            Resource {
                original_path: copy_bytes(&file.path),
                url_path: URLPath::Filepath(new_path),
                contents,
            },
        )
    }

    fn flush(&mut self) -> (r: Result<Vec<Resource>, BuildError>)
        ensures
            final(self).posts_dir_spec() == old(self).posts_dir_spec(),
            final(self).template_path_spec() == old(self).template_path_spec(),
            final(self).list_template_path_spec() == old(self).list_template_path_spec(),
            final(self).development_spec() == old(self).development_spec(),
            old(self).pending_posts().len() == 0 ==> r is Ok,
            r matches Ok(v) ==> {
                &&& final(self).pending_posts() == Seq::<PostItemModel>::empty()
                &&& v@.len() == spec_page_count(old(self).pending_posts().len())
                &&& forall|k: int|
                    0 <= k < v@.len() ==> (#[trigger] v@[k])@.url_path == URLPathModel::Absolute(
                        spec_page_url(k as nat),
                    ) && v@[k]@.original_path == old(self).list_template_path_spec()
            },
            r matches Err(e) ==> e is Template,
    {
        let mut drained: Vec<PostItem> = Vec::new();
        core::mem::swap(&mut drained, &mut self.posts);
        proof {
            assert(spec_post_views(Seq::<PostItem>::empty()) =~= Seq::<PostItemModel>::empty());
            assert(self.pending_posts() =~= Seq::<PostItemModel>::empty());
        }
        let sorted = sort_posts_desc(drained);
        let n: usize = sorted.len();
        proof {
            assert(spec_post_views(sorted@).len() == spec_post_views(sorted@).to_multiset().len())
                by {
                spec_post_views(sorted@).to_multiset_ensures();
            }
            assert(spec_post_views(old(self).posts@).len() == spec_post_views(
                old(self).posts@,
            ).to_multiset().len()) by {
                spec_post_views(old(self).posts@).to_multiset_ensures();
            }
            assert(n as nat == old(self).pending_posts().len());
        }
        let n_pages: usize = if n == 0 {
            0
        } else {
            (n - 1) / 10 + 1
        };
        proof {
            assert(n_pages as nat == spec_page_count(old(self).pending_posts().len()));
        }
        let mut pages: Vec<Resource> = Vec::new();
        let mut i: usize = 0;
        let mut from: usize = 0;
        while i < n_pages
            invariant
                i <= n_pages,
                i < n_pages ==> from == i * 10,
                n == sorted@.len(),
                n as nat == old(self).pending_posts().len(),
                n_pages as nat == spec_page_count(n as nat),
                self.development_spec() == old(self).development_spec(),
                pages@.len() == i,
                forall|k: int|
                    0 <= k < i ==> (#[trigger] pages@[k])@.url_path == URLPathModel::Absolute(
                        spec_page_url(k as nat),
                    ) && pages@[k]@.original_path == self.list_template_path_spec(),
                self.list_template_path_spec() == old(self).list_template_path_spec(),
                self.posts_dir_spec() == old(self).posts_dir_spec(),
                self.template_path_spec() == old(self).template_path_spec(),
                self.pending_posts() == Seq::<PostItemModel>::empty(),
            decreases n_pages - i,
        {
            proof {
                assert(i * 10 <= (n_pages - 1) * 10 && (n_pages - 1) * 10 < n) by (nonlinear_arith)
                    requires
                        0 <= i < n_pages,
                        n_pages == spec_page_count(n as nat),
                        n_pages == ((n - 1) as nat / 10 + 1) || n == 0,
                        n > 0,
                ;
            }
            let to: usize = if n - from > 10 {
                from + 10
            } else {
                n
            };
            let mut chunk: Vec<PostItem> = Vec::new();
            let mut j: usize = from;
            while j < to
                invariant
                    from <= j <= to <= sorted@.len(),
                decreases to - j,
            {
                chunk.push(duplicate_post(&sorted[j]));
                j += 1;
            }
            let last = i == n_pages - 1;
            let res = match self.render_post_list(i, last, &chunk) {
                Ok(res) => res,
                Err(e) => {
                    return Err(e);
                },
            };
            pages.push(res);
            proof {
                if i + 1 < n_pages {
                    assert((i + 1) * 10 == i * 10 + 10 && (i + 1) * 10 <= (n_pages - 1) * 10 && (
                    n_pages - 1) * 10 < n) by (nonlinear_arith)
                        requires
                            0 <= i,
                            i + 1 < n_pages,
                            n > 0,
                            n_pages == (n - 1) as nat / 10 + 1,
                    ;
                }
            }
            i += 1;
            from = to;
        }
        Ok(pages)
    }
}

} // verus!
verus! {

/// The closed set of processors one build dispatches over, in registration
/// order: the first processor whose `matches` accepts a path consumes it.
pub enum Processor {
    Static(StaticProcessor),
    Liquid(LiquidProcessor),
    Posts(PostsProcessor),
}

/// The aggregate items a processor has accumulated during per-file
/// processing; only the posts processor aggregates.
impl Processor {
    pub open spec fn pending_items(&self) -> Seq<PostItemModel> {
        match self {
            Processor::Posts(p) => p.pending_posts(),
            _ => Seq::empty(),
        }
    }

    /// Whether successfully processing a file at `path` adds an aggregate item.
    pub open spec fn aggregates(&self, path: Seq<u8>) -> bool {
        match self {
            Processor::Posts(p) => p.matches_spec(path) && !p.is_template_path(path),
            _ => false,
        }
    }

    /// Whether `path` is claimed only as a template sentinel: matched, but
    /// producing an empty resource that is never stored.
    pub open spec fn is_template_sentinel(&self, path: Seq<u8>) -> bool {
        match self {
            Processor::Posts(p) => p.is_template_path(path),
            _ => false,
        }
    }

    /// The source path that aggregate pages are attributed to.
    pub open spec fn list_template_path_of(&self) -> Seq<u8> {
        match self {
            Processor::Posts(p) => p.list_template_path_spec(),
            _ => Seq::empty(),
        }
    }
}

/// The aggregate items after one file is processed successfully.
pub open spec fn spec_pending_after(p: Processor, file: SourceFile) -> Seq<PostItemModel> {
    if p.aggregates(file.path@) {
        p.pending_items().push(spec_post_item_of(file.path@, file.metadata->0@))
    } else {
        p.pending_items()
    }
}

impl ResourceProcessor for Processor {
    open spec fn wf(&self) -> bool {
        match self {
            Processor::Static(p) => p.wf(),
            Processor::Liquid(p) => p.wf(),
            Processor::Posts(p) => p.wf(),
        }
    }

    open spec fn matches_spec(&self, path: Seq<u8>) -> bool {
        match self {
            Processor::Static(p) => p.matches_spec(path),
            Processor::Liquid(p) => p.matches_spec(path),
            Processor::Posts(p) => p.matches_spec(path),
        }
    }

    fn matches(&self, path: &Vec<u8>) -> (b: bool)
        ensures
            b == self.matches_spec(path@),
    {
        match self {
            Processor::Static(p) => p.matches(path),
            Processor::Liquid(p) => p.matches(path),
            Processor::Posts(p) => p.matches(path),
        }
    }

    fn process(&mut self, file: &SourceFile) -> (r: Result<Resource, BuildError>)
        ensures
            r is Ok ==> final(self).pending_items() == spec_pending_after(*old(self), *file),
            r is Err ==> final(self).pending_items() == old(self).pending_items(),
            forall|q: Seq<u8>| final(self).aggregates(q) == old(self).aggregates(q),
            forall|q: Seq<u8>|
                final(self).is_template_sentinel(q) == old(self).is_template_sentinel(q),
            final(self).list_template_path_of() == old(self).list_template_path_of(),
            ((*final(self)) is Static) == ((*old(self)) is Static),
            ((*final(self)) is Liquid) == ((*old(self)) is Liquid),
            ((*final(self)) is Posts) == ((*old(self)) is Posts),
            old(self) matches Processor::Static(_) ==> (r matches Ok(res) && res@
                == spec_static_resource(*file)),
            old(self).is_template_sentinel(file.path@) ==> (r matches Ok(res) && res@
                == spec_sentinel_resource(*file)),
            old(self) matches Processor::Liquid(_) ==> (r matches Ok(res) ==> res@.url_path
                == URLPathModel::Filepath(spec_with_extension(file.path@, "html".spec_bytes()))),
            old(self).aggregates(file.path@) ==> (r matches Ok(res) ==> res@.url_path
                == URLPathModel::Filepath(spec_with_extension(file.path@, "html".spec_bytes()))),
            old(self).aggregates(file.path@) ==> {
                &&& (!utf8_ok(file.contents@) ==> (r matches Err(e) && e is InvalidUtf8))
                &&& (utf8_ok(file.contents@) && file.metadata is None ==> (r matches Err(e)
                    && e is Metadata))
                &&& (file.metadata matches Some(t) && utf8_ok(file.contents@) && !post_meta_ok(t@)
                    ==> (r matches Err(e) && e is Metadata))
            },
    {
        match self {
            Processor::Static(p) => p.process(file),
            Processor::Liquid(p) => p.process(file),
            Processor::Posts(p) => p.process(file),
        }
    }

    fn flush(&mut self) -> (r: Result<Vec<Resource>, BuildError>)
        ensures
            old(self).pending_items().len() == 0 ==> r is Ok,
            r matches Ok(v) ==> {
                &&& final(self).pending_items() == Seq::<PostItemModel>::empty()
                &&& v@.len() == spec_page_count(old(self).pending_items().len())
                &&& forall|k: int|
                    0 <= k < v@.len() ==> (#[trigger] v@[k])@.url_path == URLPathModel::Absolute(
                        spec_page_url(k as nat),
                    ) && v@[k]@.original_path == old(self).list_template_path_of()
            },
            r matches Err(e) ==> e is Template,
            forall|q: Seq<u8>| final(self).aggregates(q) == old(self).aggregates(q),
            forall|q: Seq<u8>|
                final(self).is_template_sentinel(q) == old(self).is_template_sentinel(q),
            final(self).list_template_path_of() == old(self).list_template_path_of(),
            ((*final(self)) is Static) == ((*old(self)) is Static),
            ((*final(self)) is Liquid) == ((*old(self)) is Liquid),
            ((*final(self)) is Posts) == ((*old(self)) is Posts),
    {
        match self {
            Processor::Static(p) => p.flush(),
            Processor::Liquid(p) => p.flush(),
            Processor::Posts(p) => p.flush(),
        }
    }
}

} // verus!
