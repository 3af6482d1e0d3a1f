//! Resources, their output URLs, and the live store that serves them.
use vstd::prelude::*;
use vstd::string::*;

use crate::bytestr::{
    bytes_eq, copy_bytes, spec_extension, spec_strip_base, str_bytes, strip_base, extension,
};
use crate::BuildError;

verus! {

/// Where a resource's output URL comes from.
pub ghost enum URLPathModel {
    /// The URL is the source path, made relative to the build root.
    UseOriginalPath,
    /// The URL is this replacement path, made relative to the build root.
    Filepath(Seq<u8>),
    /// The URL is this literal string, used verbatim.
    Absolute(Seq<u8>),
}

/// Where a resource's output URL comes from; see `URLPathModel` for the
/// meaning of each variant.
#[derive(Debug)]
pub enum URLPath {
    UseOriginalPath,
    Filepath(Vec<u8>),
    Absolute(Vec<u8>),
}

impl View for URLPath {
    type V = URLPathModel;

    open spec fn view(&self) -> URLPathModel {
        match self {
            URLPath::UseOriginalPath => URLPathModel::UseOriginalPath,
            URLPath::Filepath(p) => URLPathModel::Filepath(p@),
            URLPath::Absolute(s) => URLPathModel::Absolute(s@),
        }
    }
}

impl URLPath {
    /// A fresh copy holding the same locator.
    pub fn duplicate(&self) -> (r: URLPath)
        ensures
            r@ == self@,
    {
        match self {
            URLPath::UseOriginalPath => URLPath::UseOriginalPath,
            URLPath::Filepath(p) => URLPath::Filepath(copy_bytes(p)),
            URLPath::Absolute(s) => URLPath::Absolute(copy_bytes(s)),
        }
    }
}

/// The mathematical value of a `Resource`.
pub ghost struct ResourceModel {
    pub original_path: Seq<u8>,
    pub url_path: URLPathModel,
    pub contents: Seq<u8>,
}

/// The immutable result of processing one input path: raw output bytes plus
/// what is needed to compute the output URL.
#[derive(Debug)]
pub struct Resource {
    /// The source path the resource was derived from.
    pub original_path: Vec<u8>,
    /// How the output URL is computed.
    pub url_path: URLPath,
    /// The raw output bytes. A resource with empty contents is a sentinel for
    /// "matched but not directly addressable" and is never stored.
    pub contents: Vec<u8>,
}

impl View for Resource {
    type V = ResourceModel;

    open spec fn view(&self) -> ResourceModel {
        ResourceModel {
            original_path: self.original_path@,
            url_path: self.url_path@,
            contents: self.contents@,
        }
    }
}

/// The path that names a resource: its replacement or literal output path
/// where one is set, its source path otherwise.
pub open spec fn spec_resource_path(r: ResourceModel) -> Seq<u8> {
    match r.url_path {
        URLPathModel::UseOriginalPath => r.original_path,
        URLPathModel::Filepath(p) => p,
        URLPathModel::Absolute(s) => s,
    }
}

/// The output URL of a resource under the build root `base`: the resource's
/// path made relative to `base`, except that an absolute locator is used
/// verbatim. `None` when the path does not lie under `base`.
pub open spec fn spec_url(r: ResourceModel, base: Seq<u8>) -> Option<Seq<u8>> {
    match r.url_path {
        URLPathModel::UseOriginalPath => spec_strip_base(base, r.original_path),
        URLPathModel::Filepath(p) => spec_strip_base(base, p),
        URLPathModel::Absolute(s) => Some(s),
    }
}

/// The essence of the MIME type that `mime_guess::from_path` derives from a
/// path; a pure function of the path's bytes.
pub uninterp spec fn mime_of(path: Seq<u8>) -> Seq<u8>;

/// Relies on `mime_guess::from_path` and `MimeGuess::first_or_text_plain`:
/// the guess is a fixed table lookup on the path's extension, so the result
/// depends on the path alone.
#[verifier::external_body]
fn guess_content_type(path: &Vec<u8>) -> (r: Vec<u8>)
    ensures
        r@ == mime_of(path@),
{
    let p = String::from_utf8_lossy(path);
    let mime = mime_guess::from_path(&*p).first_or_text_plain();
    mime.essence_str().as_bytes().to_vec()
}

impl Resource {
    /// A fresh copy holding the same value.
    pub fn duplicate(&self) -> (r: Resource)
        ensures
            r@ == self@,
    {
        Resource {
            original_path: copy_bytes(&self.original_path),
            url_path: self.url_path.duplicate(),
            contents: copy_bytes(&self.contents),
        }
    }

    /// The path that names this resource, as `spec_resource_path` describes.
    pub fn path(&self) -> (r: Vec<u8>)
        ensures
            r@ == spec_resource_path(self@),
    {
        match &self.url_path {
            URLPath::UseOriginalPath => copy_bytes(&self.original_path),
            URLPath::Filepath(p) => copy_bytes(p),
            URLPath::Absolute(s) => copy_bytes(s),
        }
    }

    /// The output URL of this resource under the build root `base`, as
    /// `spec_url` describes; a path outside the root is a fatal build error.
    pub fn url(&self, base: &Vec<u8>) -> (r: Result<Vec<u8>, BuildError>)
        ensures
            match r {
                Ok(u) => spec_url(self@, base@) == Some(u@),
                Err(e) => spec_url(self@, base@) is None && e is NotUnderRoot,
            },
    {
        let path: &Vec<u8> = match &self.url_path {
            URLPath::UseOriginalPath => &self.original_path,
            URLPath::Filepath(p) => p,
            URLPath::Absolute(s) => {
                return Ok(copy_bytes(s));
            },
        };
        match strip_base(base, path) {
            Some(rest) => Ok(rest),
            None => Err(BuildError::NotUnderRoot),
        }
    }

    /// The MIME essence string for this resource's path.
    pub fn content_type(&self) -> (r: Vec<u8>)
        ensures
            r@ == mime_of(spec_resource_path(self@)),
    {
        let p = self.path();
        guess_content_type(&p)
    }
}

/// The extensions of the source files that a build pass considers.
pub open spec fn spec_recognized_extension(e: Seq<u8>) -> bool {
    ||| e == "css".spec_bytes()
    ||| e == "html".spec_bytes()
    ||| e == "jpg".spec_bytes()
    ||| e == "jpeg".spec_bytes()
    ||| e == "woff2".spec_bytes()
    ||| e == "liquid".spec_bytes()
    ||| e == "md".spec_bytes()
    ||| e == "markdown".spec_bytes()
    ||| e == "png".spec_bytes()
    ||| e == "svg".spec_bytes()
    ||| e == "webp".spec_bytes()
}

/// True when the walker hands `p` to the build: its extension is recognized.
pub open spec fn spec_path_wanted(p: Seq<u8>) -> bool {
    match spec_extension(p) {
        Some(e) => spec_recognized_extension(e),
        None => false,
    }
}

/// Decides whether a discovered file takes part in the build, as
/// `spec_path_wanted` describes: directories are walked unconditionally, and
/// only files pass through this filter.
pub fn path_wanted(path: &Vec<u8>) -> (b: bool)
    ensures
        b == spec_path_wanted(path@),
{
    match extension(path) {
        None => false,
        Some(e) => {
            bytes_eq(&e, &str_bytes("css")) || bytes_eq(&e, &str_bytes("html")) || bytes_eq(
                &e,
                &str_bytes("jpg"),
            ) || bytes_eq(&e, &str_bytes("jpeg")) || bytes_eq(&e, &str_bytes("woff2")) || bytes_eq(
                &e,
                &str_bytes("liquid"),
            ) || bytes_eq(&e, &str_bytes("md")) || bytes_eq(&e, &str_bytes("markdown")) || bytes_eq(
                &e,
                &str_bytes("png"),
            ) || bytes_eq(&e, &str_bytes("svg")) || bytes_eq(&e, &str_bytes("webp"))
        },
    }
}

/// What a store holds, looked up from the newest entry backwards.
pub open spec fn spec_lookup(s: Seq<(Vec<u8>, Resource)>, k: Seq<u8>) -> Option<ResourceModel>
    decreases s.len(),
{
    if s.len() == 0 {
        None
    } else if s.last().0@ == k {
        Some(s.last().1@)
    } else {
        spec_lookup(s.drop_last(), k)
    }
}

/// A mapping from output URL to resource. It is populated during one build
/// pass and then either served directly or swapped whole into the live store:
/// a swap exchanges the complete generation in one step, so no reader ever
/// sees a mix of old and new entries.
pub struct Store {
    entries: Vec<(Vec<u8>, Resource)>,
}

impl View for Store {
    type V = Map<Seq<u8>, ResourceModel>;

    closed spec fn view(&self) -> Map<Seq<u8>, ResourceModel> {
        Map::new(
            |k: Seq<u8>| spec_lookup(self.entries@, k) is Some,
            |k: Seq<u8>| spec_lookup(self.entries@, k)->Some_0,
        )
    }
}

/// True when every stored resource has nonempty contents; every store built
/// through `put` satisfies it.
pub open spec fn all_nonempty(m: Map<Seq<u8>, ResourceModel>) -> bool {
    forall|k: Seq<u8>| #[trigger] m.contains_key(k) ==> m[k].contents.len() > 0
}

impl Store {
    /// An empty store.
    pub fn new() -> (r: Store)
        ensures
            r@ == Map::<Seq<u8>, ResourceModel>::empty(),
            all_nonempty(r@),
    {
        let s = Store { entries: Vec::new() };
        proof {
            assert(s@ =~= Map::<Seq<u8>, ResourceModel>::empty());
        }
        s
    }

    /// Inserts `resource` under `url`, overwriting any previous entry — except
    /// that a resource with empty contents is never stored: such a resource
    /// marks a path that was matched but has no directly addressable output.
    pub fn put(&mut self, url: Vec<u8>, resource: Resource)
        ensures
            resource@.contents.len() == 0 ==> final(self)@ == old(self)@,
            resource@.contents.len() > 0 ==> final(self)@ == old(self)@.insert(url@, resource@),
            all_nonempty(old(self)@) ==> all_nonempty(final(self)@),
    {
        if resource.contents.len() == 0 {
            return;
        }
        let ghost old_entries = self.entries@;
        let ghost u = url@;
        let ghost rm = resource@;
        self.entries.push((url, resource));
        proof {
            assert forall|k: Seq<u8>| true implies #[trigger] spec_lookup(self.entries@, k) == (
            if k == u {
                Some(rm)
            } else {
                spec_lookup(old_entries, k)
            }) by {
                assert(self.entries@.last().0@ == u);
                assert(self.entries@.drop_last() =~= old_entries);
            }
            assert(final(self)@ =~= old(self)@.insert(u, rm));
        }
    }

    /// Looks an output URL up; an absent key is "not found", never an error.
    pub fn get(&self, url: &Vec<u8>) -> (r: Option<Resource>)
        ensures
            match r {
                Some(res) => self@.contains_key(url@) && res@ == self@[url@],
                None => !self@.contains_key(url@),
            },
    {
        let mut i: usize = self.entries.len();
        proof {
            assert(self.entries@.take(self.entries@.len() as int) =~= self.entries@);
        }
        while i > 0
            invariant
                i <= self.entries@.len(),
                spec_lookup(self.entries@, url@) == spec_lookup(
                    self.entries@.take(i as int),
                    url@,
                ),
            decreases i,
        {
            i -= 1;
            if bytes_eq(&self.entries[i].0, url) {
                proof {
                    assert(self.entries@.take(i + 1 as int).last() == self.entries@[i as int]);
                }
                return Some(self.entries[i].1.duplicate());
            }
            proof {
                assert(self.entries@.take(i + 1 as int).last() == self.entries@[i as int]);
                assert(self.entries@.take(i + 1 as int).drop_last() =~= self.entries@.take(
                    i as int,
                ));
            }
        }
        proof {
            assert(self.entries@.take(0) =~= Seq::<(Vec<u8>, Resource)>::empty());
        }
        None
    }

    /// Exchanges this store's whole contents for `other`'s in one step. A
    /// lookup sees either the generation before the exchange or the one after
    /// it, never a mix; the old generation is discarded.
    pub fn replace(&mut self, other: Store)
        ensures
            final(self)@ == other@,
    {
        self.entries = other.entries;
    }
}

} // verus!
// ------------------------------------------------------------------
// The build pass: dispatch, then flush
// ------------------------------------------------------------------
use vstd::prelude::*;

use crate::processors::{
    spec_page_count, spec_page_url, spec_pending_after, spec_post_item_of, spec_sentinel_resource,
    spec_static_resource, PostItemModel, Processor,
};
use crate::bytestr::spec_with_extension;
use crate::{ResourceProcessor, SourceFile};

verus! {

/// Every processor in the set is well-formed.
pub open spec fn all_wf(ps: Seq<Processor>) -> bool {
    forall|i: int| 0 <= i < ps.len() ==> (#[trigger] ps[i]).wf()
}

/// No processor in the set claims `path`: such a file is silently skipped.
pub open spec fn no_match(ps: Seq<Processor>, path: Seq<u8>) -> bool {
    forall|j: int| 0 <= j < ps.len() ==> !(#[trigger] ps[j]).matches_spec(path)
}

/// Processor `i` is the one that consumes `path`: it claims the path and no
/// earlier processor does.
pub open spec fn is_first_match(ps: Seq<Processor>, path: Seq<u8>, i: int) -> bool {
    &&& 0 <= i < ps.len()
    &&& ps[i].matches_spec(path)
    &&& forall|j: int| 0 <= j < i ==> !(#[trigger] ps[j]).matches_spec(path)
}

/// First-match-wins: whichever processor consumes a path stands no later in
/// the registration order than any other processor that claims it, so a path
/// claimed by two processors is always consumed by the earlier one.
pub proof fn lemma_first_match_wins(ps: Seq<Processor>, path: Seq<u8>, a: int, b: int)
    requires
        0 <= a < ps.len(),
        ps[a].matches_spec(path),
        is_first_match(ps, path, b),
    ensures
        b <= a,
        ps[b].matches_spec(path),
{
}

/// The consuming processor of a path is unique.
pub proof fn lemma_first_match_unique(ps: Seq<Processor>, path: Seq<u8>, a: int, b: int)
    requires
        is_first_match(ps, path, a),
        is_first_match(ps, path, b),
    ensures
        a == b,
{
}

/// The two sets have the same length and agree pointwise on everything but
/// accumulated state: which paths each processor claims, aggregates and treats
/// as a template sentinel, its kind, and the template path its aggregate pages
/// are attributed to. Processing and flushing preserve all of it.
pub open spec fn same_matching(a: Seq<Processor>, b: Seq<Processor>) -> bool {
    &&& a.len() == b.len()
    &&& forall|i: int, q: Seq<u8>|
        0 <= i < a.len() ==> (#[trigger] a[i].matches_spec(q)) == b[i].matches_spec(q)
    &&& forall|i: int, q: Seq<u8>|
        0 <= i < a.len() ==> (#[trigger] a[i].aggregates(q)) == b[i].aggregates(q)
    &&& forall|i: int, q: Seq<u8>|
        0 <= i < a.len() ==> (#[trigger] a[i].is_template_sentinel(q))
            == b[i].is_template_sentinel(q)
    &&& forall|i: int|
        0 <= i < a.len() ==> (#[trigger] a[i].list_template_path_of())
            == b[i].list_template_path_of()
    &&& forall|i: int|
        0 <= i < a.len() ==> ((#[trigger] a[i]) is Static == b[i] is Static) && (a[i] is Liquid
            == b[i] is Liquid) && (a[i] is Posts == b[i] is Posts)
}

/// What storing one resource does to the map: an insert at the URL, except
/// that a resource with empty contents is suppressed and changes nothing.
pub open spec fn spec_store_put(
    m: Map<Seq<u8>, ResourceModel>,
    url: Seq<u8>,
    res: ResourceModel,
) -> Map<Seq<u8>, ResourceModel> {
    if res.contents.len() > 0 {
        m.insert(url, res)
    } else {
        m
    }
}

/// What the consuming processor's contract pins about the resource a file
/// becomes: it is derived from this very path and carries the variant's output
/// locator; a static file's resource is its bytes verbatim, and a claimed
/// template file's resource is the empty sentinel.
pub open spec fn spec_dispatched(p: Processor, file: SourceFile, res: ResourceModel) -> bool {
    &&& res.original_path == file.path@
    &&& (p matches Processor::Static(_) ==> res == spec_static_resource(file))
    &&& (p.is_template_sentinel(file.path@) ==> res == spec_sentinel_resource(file))
    &&& (p matches Processor::Liquid(_) ==> res.url_path == URLPathModel::Filepath(
        spec_with_extension(file.path@, "html".spec_bytes()),
    ))
    &&& (p.aggregates(file.path@) ==> res.url_path == URLPathModel::Filepath(
        spec_with_extension(file.path@, "html".spec_bytes()),
    ))
}

/// One dispatched file's whole effect on the store: a file nobody claims
/// changes nothing; a consumed file stores exactly one resource, pinned by the
/// consuming processor's contract, at its resolved URL.
pub open spec fn spec_build_step(
    ps: Seq<Processor>,
    base: Seq<u8>,
    m0: Map<Seq<u8>, ResourceModel>,
    m1: Map<Seq<u8>, ResourceModel>,
    file: SourceFile,
) -> bool {
    if no_match(ps, file.path@) {
        m1 == m0
    } else {
        exists|i: int|
            #[trigger] is_first_match(ps, file.path@, i) && exists|res: ResourceModel|
                {
                    &&& #[trigger] spec_dispatched(ps[i], file, res)
                    &&& spec_url(res, base) matches Some(u) && m1 == spec_store_put(m0, u, res)
                }
    }
}

/// The store relation across a file sequence, dispatched in order: each file
/// performs one `spec_build_step` on the store left by the files before it.
pub open spec fn spec_build_trace(
    ps: Seq<Processor>,
    base: Seq<u8>,
    m0: Map<Seq<u8>, ResourceModel>,
    m1: Map<Seq<u8>, ResourceModel>,
    files: Seq<SourceFile>,
) -> bool
    decreases files.len(),
{
    if files.len() == 0 {
        m1 == m0
    } else {
        exists|mid: Map<Seq<u8>, ResourceModel>|
            #[trigger] spec_build_step(ps, base, m0, mid, files[0]) && spec_build_trace(
                ps,
                base,
                mid,
                m1,
                files.drop_first(),
            )
    }
}

proof fn lemma_build_trace_snoc(
    ps: Seq<Processor>,
    base: Seq<u8>,
    m0: Map<Seq<u8>, ResourceModel>,
    m1: Map<Seq<u8>, ResourceModel>,
    m2: Map<Seq<u8>, ResourceModel>,
    files: Seq<SourceFile>,
    f: SourceFile,
)
    requires
        spec_build_trace(ps, base, m0, m1, files),
        spec_build_step(ps, base, m1, m2, f),
    ensures
        spec_build_trace(ps, base, m0, m2, files.push(f)),
    decreases files.len(),
{
    if files.len() == 0 {
        assert(files.push(f)[0] == f);
        assert(files.push(f).drop_first() =~= files);
        assert(spec_build_step(ps, base, m0, m2, f));
        assert(spec_build_trace(ps, base, m2, m2, files.push(f).drop_first()));
    } else {
        let mid = choose|mid: Map<Seq<u8>, ResourceModel>|
            #[trigger] spec_build_step(ps, base, m0, mid, files[0]) && spec_build_trace(
                ps,
                base,
                mid,
                m1,
                files.drop_first(),
            );
        lemma_build_trace_snoc(ps, base, mid, m1, m2, files.drop_first(), f);
        assert(files.push(f)[0] == files[0]);
        assert(files.push(f).drop_first() =~= files.drop_first().push(f));
        assert(spec_build_step(ps, base, m0, mid, files.push(f)[0]));
    }
}

/// A step is insensitive to anything but the processors' matching shape, so it
/// carries from the evolving set back to the initial one.
proof fn lemma_build_step_same(
    a: Seq<Processor>,
    b: Seq<Processor>,
    base: Seq<u8>,
    m0: Map<Seq<u8>, ResourceModel>,
    m1: Map<Seq<u8>, ResourceModel>,
    f: SourceFile,
)
    requires
        same_matching(a, b),
        spec_build_step(b, base, m0, m1, f),
    ensures
        spec_build_step(a, base, m0, m1, f),
{
    assert(no_match(a, f.path@) == no_match(b, f.path@)) by {
        if no_match(a, f.path@) {
            assert forall|j: int| 0 <= j < b.len() implies !(#[trigger] b[j]).matches_spec(
                f.path@,
            ) by {
                assert(!a[j].matches_spec(f.path@));
            }
        }
        if no_match(b, f.path@) {
            assert forall|j: int| 0 <= j < a.len() implies !(#[trigger] a[j]).matches_spec(
                f.path@,
            ) by {
                assert(!b[j].matches_spec(f.path@));
            }
        }
    }
    if !no_match(b, f.path@) {
        let i = choose|i: int|
            #[trigger] is_first_match(b, f.path@, i) && exists|res: ResourceModel|
                {
                    &&& #[trigger] spec_dispatched(b[i], f, res)
                    &&& spec_url(res, base) matches Some(u) && m1 == spec_store_put(m0, u, res)
                };
        let res = choose|res: ResourceModel|
            {
                &&& #[trigger] spec_dispatched(b[i], f, res)
                &&& spec_url(res, base) matches Some(u) && m1 == spec_store_put(m0, u, res)
            };
        assert(is_first_match(a, f.path@, i)) by {
            assert(a[i].matches_spec(f.path@) == b[i].matches_spec(f.path@));
            assert forall|j: int| 0 <= j < i implies !(#[trigger] a[j]).matches_spec(f.path@) by {
                assert(!b[j].matches_spec(f.path@));
            }
        }
        assert(spec_dispatched(a[i], f, res)) by {
            assert((a[i] is Static == b[i] is Static) && (a[i] is Liquid == b[i] is Liquid));
            assert(a[i].is_template_sentinel(f.path@) == b[i].is_template_sentinel(f.path@));
            assert(a[i].aggregates(f.path@) == b[i].aggregates(f.path@));
        }
        assert(spec_build_step(a, base, m0, m1, f));
    }
}

/// Dispatches one file: the first processor whose `matches` accepts the path
/// processes it, the resource's URL is resolved against the root, and the
/// resource is stored; a file no processor claims is skipped silently. Only
/// the consuming processor's state can change, and the store gains at most
/// this file's resource.
#[verifier::loop_isolation(false)]
pub fn dispatch_file(
    processors: &mut Vec<Processor>,
    base: &Vec<u8>,
    store: &mut Store,
    file: &SourceFile,
) -> (r: Result<(), BuildError>)
    requires
        all_wf(old(processors)@),
    ensures
        all_wf(final(processors)@),
        same_matching(old(processors)@, final(processors)@),
        no_match(old(processors)@, file.path@) ==> (r is Ok && final(store)@ == old(store)@
            && final(processors)@ == old(processors)@),
        forall|i: int, j: int|
            #![trigger is_first_match(old(processors)@, file.path@, i), final(processors)@[j]]
            is_first_match(old(processors)@, file.path@, i) && 0 <= j < old(processors)@.len() && j
                != i ==> final(processors)@[j] == old(processors)@[j],
        r is Ok ==> forall|i: int|
            0 <= i < old(processors)@.len() ==> (#[trigger] final(processors)@[i]).pending_items()
                == (if is_first_match(old(processors)@, file.path@, i) {
                spec_pending_after(old(processors)@[i], *file)
            } else {
                old(processors)@[i].pending_items()
            }),
        r is Ok ==> spec_build_step(old(processors)@, base@, old(store)@, final(store)@, *file),
        r is Err ==> final(store)@ == old(store)@,
        all_nonempty(old(store)@) ==> all_nonempty(final(store)@),
{
    let ghost ps0 = processors@;
    let n = processors.len();
    let mut i: usize = 0;
    while i < n
        invariant
            n == processors@.len(),
            i <= n,
            processors@ == ps0,
            store@ == old(store)@,
            all_wf(ps0),
            forall|j: int| 0 <= j < i ==> !(#[trigger] ps0[j]).matches_spec(file.path@),
        decreases n - i,
    {
        if processors[i].matches(&file.path) {
            proof {
                assert(is_first_match(ps0, file.path@, i as int));
            }
            let mut p = processors.remove(i);
            let result = p.process(file);
            processors.insert(i, p);
            proof {
                assert(processors@ =~= ps0.update(i as int, processors@[i as int]));
                assert(!no_match(ps0, file.path@));
                assert forall|jj: int| 0 <= jj < ps0.len() && jj != i as int implies processors@[jj]
                    == ps0[jj] by {}
                assert forall|ii: int, q: Seq<u8>| 0 <= ii < ps0.len() implies (
                #[trigger] ps0[ii].matches_spec(q)) == processors@[ii].matches_spec(q) by {
                    if ii != i as int {
                        assert(processors@[ii] == ps0[ii]);
                    }
                }
                assert forall|ii: int, q: Seq<u8>| 0 <= ii < ps0.len() implies (
                #[trigger] ps0[ii].aggregates(q)) == processors@[ii].aggregates(q) by {
                    if ii != i as int {
                        assert(processors@[ii] == ps0[ii]);
                    }
                }
                assert forall|ii: int, q: Seq<u8>| 0 <= ii < ps0.len() implies (
                #[trigger] ps0[ii].is_template_sentinel(q)) == processors@[ii].is_template_sentinel(
                    q,
                ) by {
                    if ii != i as int {
                        assert(processors@[ii] == ps0[ii]);
                    }
                }
                assert forall|ii: int| 0 <= ii < ps0.len() implies (
                #[trigger] ps0[ii].list_template_path_of()) == processors@[ii].list_template_path_of() by {
                    if ii != i as int {
                        assert(processors@[ii] == ps0[ii]);
                    }
                }
                assert forall|ii: int| 0 <= ii < ps0.len() implies ((#[trigger] ps0[ii]) is Static
                    == processors@[ii] is Static) && (ps0[ii] is Liquid
                    == processors@[ii] is Liquid) && (ps0[ii] is Posts
                    == processors@[ii] is Posts) by {
                    if ii != i as int {
                        assert(processors@[ii] == ps0[ii]);
                    }
                }
                assert(same_matching(ps0, processors@));
                assert forall|ii: int|
                    0 <= ii < ps0.len() && ii != i as int implies (
                #[trigger] processors@[ii]).pending_items() == ps0[ii].pending_items() by {
                    assert(processors@[ii] == ps0[ii]);
                }
                assert forall|ii: int|
                    is_first_match(ps0, file.path@, ii) implies ii == i as int by {
                    lemma_first_match_unique(ps0, file.path@, ii, i as int);
                }
            }
            match result {
                Err(e) => {
                    return Err(e);
                },
                Ok(res) => {
                    let url = match res.url(base) {
                        Ok(u) => u,
                        Err(e) => {
                            return Err(e);
                        },
                    };
                    let ghost rm = res@;
                    let ghost u = url@;
                    let ghost store0 = store@;
                    store.put(url, res);
                    proof {
                        assert(spec_url(rm, base@) == Some(u));
                        assert(store@ == spec_store_put(store0, u, rm));
                        assert(spec_dispatched(ps0[i as int], *file, rm));
                        assert(spec_build_step(ps0, base@, store0, store@, *file));
                    }
                    return Ok(());
                },
            }
        }
        i += 1;
    }
    Ok(())
}

/// The aggregate items processor `i` holds after the files are dispatched in
/// order, starting from `init`: every file consumed by `i` as an aggregating
/// one contributes exactly one item.
pub open spec fn spec_pending_after_files(
    ps: Seq<Processor>,
    i: int,
    init: Seq<PostItemModel>,
    files: Seq<SourceFile>,
) -> Seq<PostItemModel>
    decreases files.len(),
{
    if files.len() == 0 {
        init
    } else {
        let head = files[0];
        let next = if is_first_match(ps, head.path@, i) && ps[i].aggregates(head.path@) {
            init.push(spec_post_item_of(head.path@, head.metadata->0@))
        } else {
            init
        };
        spec_pending_after_files(ps, i, next, files.drop_first())
    }
}

proof fn lemma_pending_fold_snoc(
    ps: Seq<Processor>,
    i: int,
    init: Seq<PostItemModel>,
    files: Seq<SourceFile>,
    f: SourceFile,
)
    ensures
        spec_pending_after_files(ps, i, init, files.push(f)) == (if is_first_match(ps, f.path@, i)
            && ps[i].aggregates(f.path@) {
            spec_pending_after_files(ps, i, init, files).push(
                spec_post_item_of(f.path@, f.metadata->0@),
            )
        } else {
            spec_pending_after_files(ps, i, init, files)
        }),
    decreases files.len(),
{
    let fs = files.push(f);
    assert(fs.len() == files.len() + 1);
    let head = fs[0];
    let next0 = if is_first_match(ps, head.path@, i) && ps[i].aggregates(head.path@) {
        init.push(spec_post_item_of(head.path@, head.metadata->0@))
    } else {
        init
    };
    assert(spec_pending_after_files(ps, i, init, fs) == spec_pending_after_files(
        ps,
        i,
        next0,
        fs.drop_first(),
    ));
    if files.len() == 0 {
        assert(head == f);
        assert(fs.drop_first() =~= files);
        assert(spec_pending_after_files(ps, i, next0, fs.drop_first()) == next0);
        assert(spec_pending_after_files(ps, i, init, files) == init);
    } else {
        assert(head == files[0]);
        assert(fs.drop_first() =~= files.drop_first().push(f));
        lemma_pending_fold_snoc(ps, i, next0, files.drop_first(), f);
        assert(spec_pending_after_files(ps, i, init, files) == spec_pending_after_files(
            ps,
            i,
            next0,
            files.drop_first(),
        ));
    }
}

/// The dispatch phase: every file is dispatched, in order. When it succeeds,
/// each processor's aggregate state reflects exactly the files it consumed,
/// over the complete file set; the flush phase only ever starts after this,
/// so aggregate output is never computed from a subset.
#[verifier::loop_isolation(false)]
pub fn dispatch_all(
    processors: &mut Vec<Processor>,
    base: &Vec<u8>,
    store: &mut Store,
    files: &Vec<SourceFile>,
) -> (r: Result<(), BuildError>)
    requires
        all_wf(old(processors)@),
    ensures
        all_wf(final(processors)@),
        same_matching(old(processors)@, final(processors)@),
        all_nonempty(old(store)@) ==> all_nonempty(final(store)@),
        r is Ok ==> forall|i: int|
            0 <= i < old(processors)@.len() ==> (#[trigger] final(processors)@[i]).pending_items()
                == spec_pending_after_files(
                old(processors)@,
                i,
                old(processors)@[i].pending_items(),
                files@,
            ),
        r is Ok ==> spec_build_trace(old(processors)@, base@, old(store)@, final(store)@, files@),
        r is Err ==> exists|k: int|
            0 <= k < files@.len() && !no_match(old(processors)@, (#[trigger] files@[k]).path@),
{
    let ghost ps0 = old(processors)@;
    let mut k: usize = 0;
    proof {
        assert(files@.take(0) =~= Seq::<SourceFile>::empty());
    }
    while k < files.len()
        invariant
            k <= files@.len(),
            all_wf(processors@),
            same_matching(ps0, processors@),
            all_nonempty(old(store)@) ==> all_nonempty(store@),
            spec_build_trace(ps0, base@, old(store)@, store@, files@.take(k as int)),
            forall|i: int|
                0 <= i < ps0.len() ==> (#[trigger] processors@[i]).pending_items()
                    == spec_pending_after_files(
                    ps0,
                    i,
                    ps0[i].pending_items(),
                    files@.take(k as int),
                ),
        decreases files@.len() - k,
    {
        let ghost before = processors@;
        let ghost store_before = store@;
        let result = dispatch_file(processors, base, store, &files[k]);
        match result {
            Err(e) => {
                proof {
                    // only a claimed file can fail, so some file matched
                    assert(!no_match(before, files@[k as int].path@));
                    assert(!no_match(ps0, files@[k as int].path@)) by {
                        if no_match(ps0, files@[k as int].path@) {
                            assert forall|j: int| 0 <= j < before.len() implies !(
                            #[trigger] before[j]).matches_spec(files@[k as int].path@) by {
                                assert(!ps0[j].matches_spec(files@[k as int].path@));
                            }
                        }
                    }
                }
                return Err(e);
            },
            Ok(()) => {},
        }
        proof {
            let f = files@[k as int];
            assert(files@.take(k + 1 as int) =~= files@.take(k as int).push(f));
            lemma_build_step_same(ps0, before, base@, store_before, store@, f);
            lemma_build_trace_snoc(
                ps0,
                base@,
                old(store)@,
                store_before,
                store@,
                files@.take(k as int),
                f,
            );
            assert forall|i: int| 0 <= i < ps0.len() implies (#[trigger] processors@[i]).pending_items()
                == spec_pending_after_files(
                ps0,
                i,
                ps0[i].pending_items(),
                files@.take(k + 1 as int),
            ) by {
                lemma_pending_fold_snoc(ps0, i, ps0[i].pending_items(), files@.take(k as int), f);
                // first-match agreement between the initial processor set and the current one
                assert(is_first_match(before, f.path@, i) == is_first_match(ps0, f.path@, i));
                if is_first_match(ps0, f.path@, i) {
                    assert(spec_pending_after(before[i], f) == (if before[i].aggregates(f.path@) {
                        before[i].pending_items().push(spec_post_item_of(f.path@, f.metadata->0@))
                    } else {
                        before[i].pending_items()
                    }));
                }
            }
        }
        k += 1;
    }
    proof {
        assert(files@.take(files@.len() as int) =~= files@);
    }
    Ok(())
}

/// The pages one processor's flush contributes: `ceil(n/10)` resources at the
/// literal list-page URLs, attributed to the list template; `n` is the number
/// of aggregate items the processor held.
pub open spec fn spec_flush_pages(n: nat, list_path: Seq<u8>, pages: Seq<ResourceModel>) -> bool {
    &&& pages.len() == spec_page_count(n)
    &&& forall|k: int|
        0 <= k < pages.len() ==> (#[trigger] pages[k]).url_path == URLPathModel::Absolute(
            spec_page_url(k as nat),
        ) && pages[k].original_path == list_path
}

/// Storing a run of flush pages in order, each at its resolved URL, empty ones
/// suppressed.
pub open spec fn spec_put_pages(
    m: Map<Seq<u8>, ResourceModel>,
    base: Seq<u8>,
    pages: Seq<ResourceModel>,
) -> Map<Seq<u8>, ResourceModel>
    decreases pages.len(),
{
    if pages.len() == 0 {
        m
    } else {
        let prev = spec_put_pages(m, base, pages.drop_last());
        match spec_url(pages.last(), base) {
            Some(u) => spec_store_put(prev, u, pages.last()),
            None => prev,
        }
    }
}

/// One processor's whole flush effect on the store: its pages, stored in
/// order.
pub open spec fn spec_flush_step(
    p: Processor,
    base: Seq<u8>,
    m0: Map<Seq<u8>, ResourceModel>,
    m1: Map<Seq<u8>, ResourceModel>,
) -> bool {
    exists|pages: Seq<ResourceModel>|
        #[trigger] spec_flush_pages(p.pending_items().len(), p.list_template_path_of(), pages)
            && m1 == spec_put_pages(m0, base, pages)
}

/// The store relation across the flush phase: the processors of the set have
/// contributed their pages, in registration order.
pub open spec fn spec_flush_trace(
    ps: Seq<Processor>,
    base: Seq<u8>,
    m0: Map<Seq<u8>, ResourceModel>,
    m1: Map<Seq<u8>, ResourceModel>,
) -> bool
    decreases ps.len(),
{
    if ps.len() == 0 {
        m1 == m0
    } else {
        exists|mid: Map<Seq<u8>, ResourceModel>|
            #[trigger] spec_flush_step(ps.last(), base, mid, m1) && spec_flush_trace(
                ps.drop_last(),
                base,
                m0,
                mid,
            )
    }
}

proof fn lemma_flush_trace_step(
    ps: Seq<Processor>,
    base: Seq<u8>,
    m0: Map<Seq<u8>, ResourceModel>,
    mid: Map<Seq<u8>, ResourceModel>,
    m1: Map<Seq<u8>, ResourceModel>,
    pages: Seq<ResourceModel>,
)
    requires
        ps.len() > 0,
        spec_flush_trace(ps.drop_last(), base, m0, mid),
        spec_flush_pages(ps.last().pending_items().len(), ps.last().list_template_path_of(), pages),
        m1 == spec_put_pages(mid, base, pages),
    ensures
        spec_flush_trace(ps, base, m0, m1),
{
    assert(spec_flush_step(ps.last(), base, mid, m1));
}

/// The flush phase: each processor contributes its aggregate resources, in
/// registration order, after all per-file processing is done; every
/// contributed resource is resolved and stored like any other. On success
/// every processor's aggregate state is drained into the store, as
/// `spec_flush_trace` describes; processors with nothing pending cannot fail.
#[verifier::loop_isolation(false)]
pub fn flush_all(processors: &mut Vec<Processor>, base: &Vec<u8>, store: &mut Store) -> (r: Result<
    (),
    BuildError,
>)
    requires
        all_wf(old(processors)@),
    ensures
        all_wf(final(processors)@),
        same_matching(old(processors)@, final(processors)@),
        all_nonempty(old(store)@) ==> all_nonempty(final(store)@),
        r is Ok ==> forall|i: int|
            0 <= i < old(processors)@.len() ==> (#[trigger] final(processors)@[i]).pending_items()
                == Seq::<PostItemModel>::empty(),
        r is Ok ==> spec_flush_trace(old(processors)@, base@, old(store)@, final(store)@),
        r is Err ==> exists|i: int|
            0 <= i < old(processors)@.len() && (#[trigger] old(
                processors,
            )@[i]).pending_items().len() > 0,
{
    let ghost ps0 = old(processors)@;
    let n = processors.len();
    let mut i: usize = 0;
    proof {
        assert(ps0.take(0) =~= Seq::<Processor>::empty());
    }
    while i < n
        invariant
            i <= n,
            n == processors@.len(),
            all_wf(processors@),
            same_matching(ps0, processors@),
            all_nonempty(old(store)@) ==> all_nonempty(store@),
            forall|j: int| i <= j < n ==> processors@[j] == ps0[j],
            spec_flush_trace(ps0.take(i as int), base@, old(store)@, store@),
            forall|j: int|
                0 <= j < i ==> (#[trigger] processors@[j]).pending_items()
                    == Seq::<PostItemModel>::empty(),
        decreases n - i,
    {
        let ghost store_i = store@;
        let ghost before = processors@;
        let mut p = processors.remove(i);
        let result = p.flush();
        processors.insert(i, p);
        proof {
            assert(processors@.len() == n);
            assert(processors@ =~= before.update(i as int, processors@[i as int]));
            assert forall|jj: int| 0 <= jj < n && jj != i as int implies processors@[jj]
                == before[jj] by {}
            assert(before[i as int] == ps0[i as int]);
            assert(same_matching(ps0, processors@)) by {
                assert forall|ii: int, q: Seq<u8>| 0 <= ii < ps0.len() implies (
                #[trigger] ps0[ii].matches_spec(q)) == processors@[ii].matches_spec(q) by {
                    if ii != i as int {
                        assert(processors@[ii] == before[ii]);
                    }
                }
                assert forall|ii: int, q: Seq<u8>| 0 <= ii < ps0.len() implies (
                #[trigger] ps0[ii].aggregates(q)) == processors@[ii].aggregates(q) by {
                    if ii != i as int {
                        assert(processors@[ii] == before[ii]);
                    }
                }
                assert forall|ii: int, q: Seq<u8>| 0 <= ii < ps0.len() implies (
                #[trigger] ps0[ii].is_template_sentinel(q))
                    == processors@[ii].is_template_sentinel(q) by {
                    if ii != i as int {
                        assert(processors@[ii] == before[ii]);
                    }
                }
                assert forall|ii: int| 0 <= ii < ps0.len() implies (
                #[trigger] ps0[ii].list_template_path_of())
                    == processors@[ii].list_template_path_of() by {
                    if ii != i as int {
                        assert(processors@[ii] == before[ii]);
                    }
                }
                assert forall|ii: int| 0 <= ii < ps0.len() implies ((
                #[trigger] ps0[ii]) is Static == processors@[ii] is Static) && (ps0[ii] is Liquid
                    == processors@[ii] is Liquid) && (ps0[ii] is Posts
                    == processors@[ii] is Posts) by {
                    if ii != i as int {
                        assert(processors@[ii] == before[ii]);
                    }
                }
            }
        }
        let resources = match result {
            Err(e) => {
                proof {
                    assert(ps0[i as int].pending_items().len() > 0);
                }
                return Err(e);
            },
            Ok(v) => v,
        };
        let ghost pm = resources@.map_values(|r: Resource| r@);
        proof {
            assert(spec_flush_pages(
                ps0[i as int].pending_items().len(),
                ps0[i as int].list_template_path_of(),
                pm,
            ));
            assert(pm.take(0) =~= Seq::<ResourceModel>::empty());
        }
        let m = resources.len();
        let mut t: usize = 0;
        while t < m
            invariant
                t <= m,
                m == resources@.len(),
                all_nonempty(old(store)@) ==> all_nonempty(store@),
                store@ == spec_put_pages(store_i, base@, pm.take(t as int)),
            decreases m - t,
        {
            let res = resources[t].duplicate();
            let url = match res.url(base) {
                Ok(u) => u,
                Err(e) => {
                    proof {
                        // every flush page carries a literal URL, which always
                        // resolves, so this failure cannot happen
                        assert(pm[t as int].url_path == URLPathModel::Absolute(
                            spec_page_url(t as nat),
                        ));
                        assert(false);
                    }
                    return Err(e);
                },
            };
            let ghost prev = store@;
            store.put(url, res);
            proof {
                assert(pm.take(t + 1 as int).drop_last() =~= pm.take(t as int));
                assert(pm.take(t + 1 as int).last() == pm[t as int]);
                assert(store@ == spec_put_pages(store_i, base@, pm.take(t + 1 as int)));
            }
            t += 1;
        }
        proof {
            assert(pm.take(m as int) =~= pm);
            let tprefix = ps0.take(i + 1 as int);
            assert(tprefix.drop_last() =~= ps0.take(i as int));
            assert(tprefix.last() == ps0[i as int]);
            lemma_flush_trace_step(tprefix, base@, old(store)@, store_i, store@, pm);
        }
        i += 1;
    }
    proof {
        assert(ps0.take(n as int) =~= ps0);
    }
    Ok(())
}

proof fn lemma_pending_fold_no_match(
    ps: Seq<Processor>,
    i: int,
    init: Seq<PostItemModel>,
    files: Seq<SourceFile>,
)
    requires
        forall|k: int| 0 <= k < files.len() ==> no_match(ps, (#[trigger] files[k]).path@),
    ensures
        spec_pending_after_files(ps, i, init, files) == init,
    decreases files.len(),
{
    if files.len() > 0 {
        assert(no_match(ps, files[0].path@));
        assert(!is_first_match(ps, files[0].path@, i));
        assert forall|k: int| 0 <= k < files.drop_first().len() implies no_match(
            ps,
            (#[trigger] files.drop_first()[k]).path@,
        ) by {
            assert(files.drop_first()[k] == files[k + 1]);
        }
        lemma_pending_fold_no_match(ps, i, init, files.drop_first());
    }
}

/// The two build phases in order, starting from an empty store: the dispatch
/// trace over every file reaches the intermediate store `mid`, held by the
/// post-dispatch processors `mid_ps` — the same set, now holding the aggregate
/// items of exactly the files each one consumed, over the complete file
/// sequence — and the flush trace of `mid_ps` carries `mid` to the final
/// store `end`.
pub open spec fn spec_build_then_flush(
    ps: Seq<Processor>,
    mid_ps: Seq<Processor>,
    base: Seq<u8>,
    files: Seq<SourceFile>,
    mid: Map<Seq<u8>, ResourceModel>,
    end: Map<Seq<u8>, ResourceModel>,
) -> bool {
    &&& same_matching(ps, mid_ps)
    &&& forall|i: int|
        0 <= i < ps.len() ==> (#[trigger] mid_ps[i]).pending_items() == spec_pending_after_files(
            ps,
            i,
            ps[i].pending_items(),
            files,
        )
    &&& spec_build_trace(ps, base, Map::empty(), mid, files)
    &&& spec_flush_trace(mid_ps, base, mid, end)
}

/// A successful pass's whole result: some run of the two phases, as
/// `spec_build_then_flush` describes, leaves exactly the map `end`.
pub open spec fn spec_built(
    ps: Seq<Processor>,
    base: Seq<u8>,
    files: Seq<SourceFile>,
    end: Map<Seq<u8>, ResourceModel>,
) -> bool {
    exists|mid_ps: Seq<Processor>, mid: Map<Seq<u8>, ResourceModel>|
        #[trigger] spec_build_then_flush(ps, mid_ps, base, files, mid, end)
}

/// One full build pass: dispatch every file through the first matching
/// processor, then let each processor flush, and hand back the populated
/// store. Any failure in either phase aborts the pass with that error and no
/// store is produced. On success the store is exactly what the two phases
/// leave behind: starting empty, each file performs its dispatch step in
/// order, and then each processor — holding the aggregate items of exactly the
/// files it consumed, over the complete set — contributes its pages; every
/// stored resource has nonempty contents. A pass in which no file is claimed
/// and nothing is pending cannot fail.
pub fn find_and_process(
    base: &Vec<u8>,
    files: &Vec<SourceFile>,
    processors: &mut Vec<Processor>,
) -> (r: Result<Store, BuildError>)
    requires
        all_wf(old(processors)@),
    ensures
        all_wf(final(processors)@),
        same_matching(old(processors)@, final(processors)@),
        r matches Ok(s) ==> all_nonempty(s@),
        r is Ok ==> forall|i: int|
            0 <= i < old(processors)@.len() ==> (#[trigger] final(processors)@[i]).pending_items()
                == Seq::<PostItemModel>::empty(),
        r matches Ok(s) ==> spec_built(old(processors)@, base@, files@, s@),
        (forall|k: int|
            0 <= k < files@.len() ==> no_match(old(processors)@, (#[trigger] files@[k]).path@))
            && (forall|i: int|
            0 <= i < old(processors)@.len() ==> (#[trigger] old(
            processors,
        )@[i]).pending_items().len() == 0) ==> r is Ok,
{
    let ghost ps0 = old(processors)@;
    let mut store = Store::new();
    match dispatch_all(processors, base, &mut store, files) {
        Err(e) => {
            return Err(e);
        },
        Ok(()) => {},
    }
    let ghost mid_ps = processors@;
    let ghost mid_m = store@;
    match flush_all(processors, base, &mut store) {
        Err(e) => {
            proof {
                // a flush can fail only with something pending, and with every
                // file unclaimed nothing is ever pending
                if forall|k: int|
                    0 <= k < files@.len() ==> no_match(ps0, (#[trigger] files@[k]).path@) {
                    let i = choose|i: int|
                        0 <= i < mid_ps.len() && (#[trigger] mid_ps[i]).pending_items().len() > 0;
                    lemma_pending_fold_no_match(ps0, i, ps0[i].pending_items(), files@);
                }
            }
            return Err(e);
        },
        Ok(()) => {},
    }
    proof {
        assert(spec_build_then_flush(ps0, mid_ps, base@, files@, mid_m, store@));
        assert(spec_built(ps0, base@, files@, store@));
    }
    Ok(store)
}

} // verus!
