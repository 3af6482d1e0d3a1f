use lumin::codeblocks::decorate_code_blocks;
use lumin::metadata::parse_post_metadata;
use lumin::processors::{LiquidProcessor, PostsProcessor, Processor, StaticProcessor};
use lumin::store::{find_and_process, Store, URLPath};
use lumin::{BuildError, ResourceProcessor, SourceFile};

fn b(s: &str) -> Vec<u8> {
    s.as_bytes().to_vec()
}

fn contains(haystack: &[u8], needle: &str) -> bool {
    haystack
        .windows(needle.len())
        .any(|w| w == needle.as_bytes())
}

const POST_TEMPLATE: &str = "<h1>{{post_title}}</h1>{{contents}}";
const LIST_TEMPLATE: &str =
    "{% for p in posts %}[{{p.title}}]{% endfor %}|prev:{{previous}}|next:{{next}}";

fn make_processors(development: bool) -> Vec<Processor> {
    let parser = lumin::template::build_parser(&Vec::new()).unwrap();
    let posts = PostsProcessor::new(
        b("/site/posts"),
        b("/site/post.liquid"),
        &b(POST_TEMPLATE),
        b("/site/post_list.liquid"),
        &b(LIST_TEMPLATE),
        &parser,
        development,
    )
    .unwrap();
    let pages = LiquidProcessor::new(b("/site/partials"), parser, development);
    vec![
        Processor::Posts(posts),
        Processor::Liquid(pages),
        Processor::Static(StaticProcessor {}),
    ]
}

fn post_file(path: &str, body: &str, title: &str, published: &str) -> SourceFile {
    SourceFile {
        path: b(path),
        contents: b(body),
        metadata: Some(b(&format!(
            "title = \"{}\"\ndescription = \"about {}\"\npublished = {}\n",
            title, title, published
        ))),
    }
}

fn site_files() -> Vec<SourceFile> {
    vec![
        SourceFile {
            path: b("/site/a.css"),
            contents: b("body{color:red}"),
            metadata: None,
        },
        post_file("/site/posts/p1.md", "first *hi*", "First", "2024-01-01"),
        post_file("/site/posts/p2.md", "second *ho*", "Second", "2024-02-02"),
        SourceFile {
            path: b("/site/post.liquid"),
            contents: b(POST_TEMPLATE),
            metadata: None,
        },
        SourceFile {
            path: b("/site/post_list.liquid"),
            contents: b(LIST_TEMPLATE),
            metadata: None,
        },
    ]
}

#[test]
fn full_build_produces_pages_posts_and_one_list() {
    let mut processors = make_processors(false);
    let store = find_and_process(&b("/site"), &site_files(), &mut processors).unwrap();

    let css = store.get(&b("a.css")).expect("static asset stored");
    assert_eq!(css.contents, b("body{color:red}"));

    let p1 = store.get(&b("posts/p1.html")).expect("first post rendered");
    assert!(contains(&p1.contents, "<h1>First</h1>"));
    assert!(contains(&p1.contents, "<em>hi</em>"));

    let p2 = store.get(&b("posts/p2.html")).expect("second post rendered");
    assert!(contains(&p2.contents, "<h1>Second</h1>"));

    let index = store.get(&b("posts/index.html")).expect("post list rendered");
    assert!(contains(&index.contents, "[Second][First]"));
    assert!(contains(&index.contents, "prev:|next:"));
}

#[test]
fn template_files_are_claimed_but_never_stored() {
    let mut processors = make_processors(false);
    let store = find_and_process(&b("/site"), &site_files(), &mut processors).unwrap();
    // the posts processor consumes both template files first, as an empty
    // sentinel, so the page-template processor never renders them
    assert!(store.get(&b("post.html")).is_none());
    assert!(store.get(&b("post_list.html")).is_none());
}

#[test]
fn registration_order_decides_who_consumes_a_path() {
    // with the page-template processor registered first, the very same
    // template file is rendered as an ordinary page instead
    let parser = lumin::template::build_parser(&Vec::new()).unwrap();
    let posts = PostsProcessor::new(
        b("/site/posts"),
        b("/site/post.liquid"),
        &b(POST_TEMPLATE),
        b("/site/post_list.liquid"),
        &b(LIST_TEMPLATE),
        &parser,
        false,
    )
    .unwrap();
    let pages = LiquidProcessor::new(b("/site/partials"), parser, false);
    let mut processors = vec![Processor::Liquid(pages), Processor::Posts(posts)];
    let files = vec![SourceFile {
        path: b("/site/plain.liquid"),
        contents: b("static words"),
        metadata: None,
    }];
    let store = find_and_process(&b("/site"), &files, &mut processors).unwrap();
    let page = store.get(&b("plain.html")).expect("template page rendered");
    assert_eq!(page.contents, b("static words"));
}

#[test]
fn partials_are_not_rendered_as_pages() {
    let mut processors = make_processors(false);
    let files = vec![SourceFile {
        path: b("/site/partials/header.liquid"),
        contents: b("<header/>"),
        metadata: None,
    }];
    let store = find_and_process(&b("/site"), &files, &mut processors).unwrap();
    assert!(store.get(&b("partials/header.html")).is_none());
}

#[test]
fn unmatched_files_are_skipped_silently() {
    let mut processors = make_processors(false);
    let files = vec![SourceFile {
        path: b("/site/notes.md"), // markdown outside the posts directory
        contents: b("plain"),
        metadata: None,
    }];
    let store = find_and_process(&b("/site"), &files, &mut processors).unwrap();
    assert!(store.get(&b("notes.html")).is_none());
    assert!(store.get(&b("notes.md")).is_none());
}

#[test]
fn a_missing_metadata_file_aborts_the_build() {
    let mut processors = make_processors(false);
    let files = vec![SourceFile {
        path: b("/site/posts/p1.md"),
        contents: b("body"),
        metadata: None,
    }];
    let r = find_and_process(&b("/site"), &files, &mut processors);
    assert!(matches!(r, Err(BuildError::Metadata)));
}

#[test]
fn a_metadata_file_without_a_title_aborts_the_build() {
    let mut processors = make_processors(false);
    let files = vec![SourceFile {
        path: b("/site/posts/p1.md"),
        contents: b("body"),
        metadata: Some(b("description = \"d\"\npublished = 2024-01-01\n")),
    }];
    let r = find_and_process(&b("/site"), &files, &mut processors);
    assert!(matches!(r, Err(BuildError::Metadata)));
}

#[test]
fn a_post_that_is_not_text_aborts_the_build() {
    let mut processors = make_processors(false);
    let files = vec![SourceFile {
        path: b("/site/posts/p1.md"),
        contents: vec![0xff, 0xfe, 0x00],
        metadata: Some(b("title = \"t\"\ndescription = \"d\"\npublished = 2024-01-01\n")),
    }];
    let r = find_and_process(&b("/site"), &files, &mut processors);
    assert!(matches!(r, Err(BuildError::InvalidUtf8)));
}

#[test]
fn a_template_that_does_not_parse_aborts_the_build() {
    let mut processors = make_processors(false);
    let files = vec![SourceFile {
        path: b("/site/broken.liquid"),
        contents: b("{% for x in %}"),
        metadata: None,
    }];
    let r = find_and_process(&b("/site"), &files, &mut processors);
    assert!(matches!(r, Err(BuildError::Template(_))));
}

#[test]
fn a_path_outside_the_root_aborts_the_build() {
    let mut processors = make_processors(false);
    let files = vec![SourceFile {
        path: b("/elsewhere/a.css"),
        contents: b("x"),
        metadata: None,
    }];
    let r = find_and_process(&b("/site"), &files, &mut processors);
    assert!(matches!(r, Err(BuildError::NotUnderRoot)));
}

#[test]
fn a_failed_build_leaves_nothing_half_applied() {
    // build once, then fail a rebuild: the live store must be byte-identical
    let mut processors = make_processors(false);
    let mut live = Store::new();
    let first = find_and_process(&b("/site"), &site_files(), &mut processors).unwrap();
    lumin::watch::apply_build(&mut live, Ok(first));
    let before = live.get(&b("posts/p1.html")).unwrap().contents;

    let mut bad = site_files();
    bad[1].metadata = Some(b("not toml at all ==="));
    let outcome = find_and_process(&b("/site"), &bad, &mut make_processors(false));
    assert!(outcome.is_err());
    let rebuilt = lumin::watch::apply_build(&mut live, outcome);
    assert!(!rebuilt);
    assert_eq!(live.get(&b("posts/p1.html")).unwrap().contents, before);
    assert_eq!(
        live.get(&b("a.css")).unwrap().contents,
        b("body{color:red}")
    );
}

#[test]
fn twenty_five_posts_paginate_into_three_pages() {
    let parser = lumin::template::build_parser(&Vec::new()).unwrap();
    let mut posts = PostsProcessor::new(
        b("/site/posts"),
        b("/site/post.liquid"),
        &b(POST_TEMPLATE),
        b("/site/post_list.liquid"),
        &b(LIST_TEMPLATE),
        &parser,
        false,
    )
    .unwrap();
    for i in 0u32..25 {
        let file = post_file(
            &format!("/site/posts/p{:02}.md", i),
            "body",
            &format!("T{:02}", i),
            &format!("2024-01-{:02}", i + 1),
        );
        posts.process(&file).unwrap();
    }
    let pages = posts.flush().unwrap();
    assert_eq!(pages.len(), 3);
    let urls: Vec<Vec<u8>> = pages
        .iter()
        .map(|p| match &p.url_path {
            URLPath::Absolute(u) => u.clone(),
            _ => panic!("list pages carry literal URLs"),
        })
        .collect();
    assert_eq!(urls[0], b("posts/index.html"));
    assert_eq!(urls[1], b("posts/posts-1.html"));
    assert_eq!(urls[2], b("posts/posts-2.html"));
    // newest first: the first page starts with the newest post
    assert!(contains(&pages[0].contents, "[T24]"));
    assert!(!contains(&pages[0].contents, "[T04]"));
    assert!(contains(&pages[2].contents, "[T04]"));
    // neighbour links
    assert!(contains(&pages[1].contents, "prev:/posts/index.html"));
    assert!(contains(&pages[1].contents, "next:posts-2.html"));
    assert!(contains(&pages[2].contents, "prev:/posts/posts-1.html"));
    assert!(pages[2].contents.ends_with(b"next:"));
    // a second flush starts from a drained state
    assert_eq!(posts.flush().unwrap().len(), 0);
}

#[test]
fn metadata_fields_are_read_from_the_document() {
    let m = parse_post_metadata(&b(
        "title = \"A Title\"\ndescription = \"words\"\npublished = 2023-12-24T10:30:00Z\n",
    ))
    .unwrap();
    assert_eq!(m.title, b("A Title"));
    assert_eq!(m.description, b("words"));
    assert_eq!(m.published, b("2023-12-24T10:30:00Z"));
    assert!(matches!(
        parse_post_metadata(&b("title = 3\n")),
        Err(BuildError::Metadata)
    ));
    assert!(matches!(
        parse_post_metadata(&b("]][[ not toml")),
        Err(BuildError::Metadata)
    ));
}

#[test]
fn code_blocks_are_rewritten_into_listing_form() {
    let html = b("<p>x</p><pre><code class=\"language-zig\">const a = 1;</code></pre><p>y</p>");
    let out = decorate_code_blocks(&html);
    assert_eq!(
        out,
        b("<p>x</p><pre class=\"code-listing\"><code>const a = 1;</code></pre><p>y</p>")
    );
}

#[test]
fn text_without_code_blocks_passes_through_unchanged() {
    let html = b("<p>nothing to see</p>");
    assert_eq!(decorate_code_blocks(&html), html);
}

#[test]
fn every_code_block_is_rewritten_in_order() {
    let html = b("<pre><code>a</code></pre>-mid-<pre><code class=\"language-c\">b</code></pre>");
    let out = decorate_code_blocks(&html);
    assert_eq!(
        out,
        b("<pre class=\"code-listing\"><code>a</code></pre>-mid-<pre class=\"code-listing\"><code>b</code></pre>")
    );
}

#[test]
fn an_empty_tree_builds_an_empty_store() {
    let mut processors = make_processors(false);
    let store = find_and_process(&b("/site"), &Vec::new(), &mut processors).unwrap();
    // no posts were seen, so not even a list page exists
    assert!(store.get(&b("posts/index.html")).is_none());
    assert!(store.get(&b("index.html")).is_none());
}

#[test]
fn duplicate_output_urls_keep_one_winner() {
    // a markdown post and a template page that resolve to the same output URL:
    // which write wins is undefined, but exactly one resource is served
    let mut processors = make_processors(false);
    let mut files = site_files();
    files.push(SourceFile {
        path: b("/site/posts/p1.liquid"),
        contents: b("shadow"),
        metadata: None,
    });
    let store = find_and_process(&b("/site"), &files, &mut processors).unwrap();
    assert!(store.get(&b("posts/p1.html")).is_some());
}

#[test]
fn posts_published_together_all_appear_in_the_list() {
    let mut processors = make_processors(false);
    let files = vec![
        post_file("/site/posts/a.md", "a", "Alpha", "2024-05-05"),
        post_file("/site/posts/b.md", "b", "Beta", "2024-05-05"),
        SourceFile {
            path: b("/site/post.liquid"),
            contents: b(POST_TEMPLATE),
            metadata: None,
        },
        SourceFile {
            path: b("/site/post_list.liquid"),
            contents: b(LIST_TEMPLATE),
            metadata: None,
        },
    ];
    let store = find_and_process(&b("/site"), &files, &mut processors).unwrap();
    let index = store.get(&b("posts/index.html")).expect("list rendered");
    assert!(contains(&index.contents, "[Alpha]"));
    assert!(contains(&index.contents, "[Beta]"));
}


#[test]
fn a_posts_processor_needs_both_templates_to_parse() {
    let parser = lumin::template::build_parser(&Vec::new()).unwrap();
    let r = PostsProcessor::new(
        b("/site/posts"),
        b("/site/post.liquid"),
        &b("{% broken"),
        b("/site/post_list.liquid"),
        &b(LIST_TEMPLATE),
        &parser,
        false,
    );
    assert!(matches!(r, Err(BuildError::Template(_))));
    let r = PostsProcessor::new(
        b("/site/posts"),
        b("/site/post.liquid"),
        &b(POST_TEMPLATE),
        b("/site/post_list.liquid"),
        &b("{% for x in %}"),
        &parser,
        false,
    );
    assert!(matches!(r, Err(BuildError::Template(_))));
}

#[test]
fn partials_are_rendered_into_pages_that_include_them() {
    let parser =
        lumin::template::build_parser(&vec![(b("header.liquid"), b("<header/>"))]).unwrap();
    let pages = LiquidProcessor::new(b("/site/partials"), parser, false);
    let mut processors = vec![Processor::Liquid(pages)];
    let files = vec![SourceFile {
        path: b("/site/home.liquid"),
        contents: b("{% include \"header.liquid\" %}!"),
        metadata: None,
    }];
    let store = find_and_process(&b("/site"), &files, &mut processors).unwrap();
    let page = store.get(&b("home.html")).expect("page rendered");
    assert_eq!(page.contents, b("<header/>!"));
}

#[test]
fn a_broken_partial_fails_the_pages_that_include_it() {
    // a partial that does not compile surfaces when a page includes it
    let parser = lumin::template::build_parser(&vec![(b("bad.liquid"), b("{% broken"))]).unwrap();
    let pages = LiquidProcessor::new(b("/site/partials"), parser, false);
    let mut processors = vec![Processor::Liquid(pages)];
    let files = vec![SourceFile {
        path: b("/site/home.liquid"),
        contents: b("{% include \"bad.liquid\" %}"),
        metadata: None,
    }];
    let r = find_and_process(&b("/site"), &files, &mut processors);
    assert!(matches!(r, Err(BuildError::Template(_))));
}
