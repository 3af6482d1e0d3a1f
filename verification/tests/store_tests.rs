use lumin::bytestr::{extension, file_name, push_decimal, with_extension};
use lumin::store::{path_wanted, Resource, Store, URLPath};
use lumin::watch::{apply_build, Scheduler};
use lumin::BuildError;

fn b(s: &str) -> Vec<u8> {
    s.as_bytes().to_vec()
}

fn res(original: &str, url_path: URLPath, contents: &str) -> Resource {
    Resource {
        original_path: b(original),
        url_path,
        contents: b(contents),
    }
}

#[test]
fn put_then_get_returns_the_resource() {
    let mut store = Store::new();
    store.put(b("a.css"), res("/site/a.css", URLPath::UseOriginalPath, "body{}"));
    let got = store.get(&b("a.css")).expect("stored entry");
    assert_eq!(got.contents, b("body{}"));
    assert_eq!(got.original_path, b("/site/a.css"));
}

#[test]
fn get_of_missing_key_is_none_not_an_error() {
    let store = Store::new();
    assert!(store.get(&b("nope.html")).is_none());
}

#[test]
fn put_overwrites_an_existing_entry() {
    let mut store = Store::new();
    store.put(b("a.css"), res("/site/a.css", URLPath::UseOriginalPath, "old"));
    store.put(b("a.css"), res("/site/a.css", URLPath::UseOriginalPath, "new"));
    let got = store.get(&b("a.css")).expect("stored entry");
    assert_eq!(got.contents, b("new"));
}

#[test]
fn put_with_empty_contents_creates_no_entry() {
    let mut store = Store::new();
    store.put(b("ghost.html"), res("/site/ghost.md", URLPath::UseOriginalPath, ""));
    assert!(store.get(&b("ghost.html")).is_none());
}

#[test]
fn put_with_empty_contents_keeps_the_previous_entry() {
    let mut store = Store::new();
    store.put(b("a.html"), res("/site/a.md", URLPath::UseOriginalPath, "kept"));
    store.put(b("a.html"), res("/site/a.md", URLPath::UseOriginalPath, ""));
    let got = store.get(&b("a.html")).expect("previous entry kept");
    assert_eq!(got.contents, b("kept"));
}

#[test]
fn replace_swaps_whole_generations() {
    let mut live = Store::new();
    live.put(b("only-old.html"), res("/s/a.md", URLPath::UseOriginalPath, "old"));
    let mut fresh = Store::new();
    fresh.put(b("only-new.html"), res("/s/b.md", URLPath::UseOriginalPath, "new"));
    live.replace(fresh);
    assert!(live.get(&b("only-old.html")).is_none());
    assert_eq!(live.get(&b("only-new.html")).unwrap().contents, b("new"));
}

#[test]
fn apply_build_ok_replaces_the_live_store() {
    let mut live = Store::new();
    live.put(b("old.html"), res("/s/old.md", URLPath::UseOriginalPath, "old"));
    let mut fresh = Store::new();
    fresh.put(b("new.html"), res("/s/new.md", URLPath::UseOriginalPath, "new"));
    let rebuilt = apply_build(&mut live, Ok(fresh));
    assert!(rebuilt);
    assert!(live.get(&b("old.html")).is_none());
    assert!(live.get(&b("new.html")).is_some());
}

#[test]
fn apply_build_err_leaves_the_live_store_untouched() {
    let mut live = Store::new();
    live.put(b("page.html"), res("/s/page.md", URLPath::UseOriginalPath, "live"));
    let rebuilt = apply_build(&mut live, Err(BuildError::Metadata));
    assert!(!rebuilt);
    let got = live.get(&b("page.html")).expect("still live");
    assert_eq!(got.contents, b("live"));
}

#[test]
fn url_of_original_path_is_relative_to_root() {
    let r = res("/site/a/b.css", URLPath::UseOriginalPath, "x");
    assert_eq!(r.url(&b("/site")).unwrap(), b("a/b.css"));
}

#[test]
fn url_of_filepath_uses_the_replacement_path() {
    let r = res("/site/post.md", URLPath::Filepath(b("/site/post.html")), "x");
    assert_eq!(r.url(&b("/site")).unwrap(), b("post.html"));
}

#[test]
fn url_of_absolute_is_used_verbatim() {
    let r = res("/site/post_list.liquid", URLPath::Absolute(b("posts/index.html")), "x");
    assert_eq!(r.url(&b("/site")).unwrap(), b("posts/index.html"));
}

#[test]
fn url_outside_the_root_is_a_fatal_error() {
    let r = res("/elsewhere/a.css", URLPath::UseOriginalPath, "x");
    assert!(matches!(r.url(&b("/site")), Err(BuildError::NotUnderRoot)));
}

#[test]
fn url_does_not_match_a_sibling_with_the_root_as_prefix() {
    let r = res("/sitex/a.css", URLPath::UseOriginalPath, "x");
    assert!(matches!(r.url(&b("/site")), Err(BuildError::NotUnderRoot)));
}

#[test]
fn content_type_comes_from_the_extension() {
    let css = res("/site/a.css", URLPath::UseOriginalPath, "x");
    assert_eq!(css.content_type(), b("text/css"));
    let html = res("/site/p.md", URLPath::Filepath(b("/site/p.html")), "x");
    assert_eq!(html.content_type(), b("text/html"));
    let unknown = res("/site/raw.zzz9", URLPath::UseOriginalPath, "x");
    assert_eq!(unknown.content_type(), b("text/plain"));
}

#[test]
fn path_wanted_accepts_recognized_extensions_only() {
    assert!(path_wanted(&b("/site/a.css")));
    assert!(path_wanted(&b("/site/posts/p.md")));
    assert!(path_wanted(&b("/site/p.markdown")));
    assert!(path_wanted(&b("/site/t.liquid")));
    assert!(path_wanted(&b("/site/i.webp")));
    assert!(!path_wanted(&b("/site/meta.toml")));
    assert!(!path_wanted(&b("/site/noext")));
    assert!(!path_wanted(&b("/site/.hidden")));
}

#[test]
fn extension_and_file_name_follow_the_last_separators() {
    assert_eq!(extension(&b("/site/a/b.css")), Some(b("css")));
    assert_eq!(extension(&b("/site/a.b/c")), None);
    assert_eq!(extension(&b("/site/.hidden")), None);
    assert_eq!(with_extension(&b("/site/p.md"), &b("html")), b("/site/p.html"));
    assert_eq!(with_extension(&b("/site/p"), &b("toml")), b("/site/p.toml"));
    assert_eq!(file_name(&b("/site/a/b.css")), b("b.css"));
    assert_eq!(file_name(&b("b.css")), b("b.css"));
}

#[test]
fn decimal_digits_render_most_significant_first() {
    let mut out = Vec::new();
    push_decimal(&mut out, 0);
    assert_eq!(out, b("0"));
    let mut out = b("posts-");
    push_decimal(&mut out, 1205);
    assert_eq!(out, b("posts-1205"));
}

#[test]
fn five_events_in_a_burst_trigger_exactly_one_rebuild() {
    let mut sched = Scheduler::new(250);
    let mut fires: u32 = 0;
    // five events, each 20ms after the last, every one re-arming the deadline
    for t in [0u64, 20, 40, 60, 80] {
        sched.on_event(t);
        if sched.on_tick(t) {
            fires += 1;
        }
    }
    // ticks before the deadline (80 + 250) pass quietly
    for t in [100u64, 200, 329] {
        if sched.on_tick(t) {
            fires += 1;
        }
    }
    // the deadline passes: exactly one trigger
    for t in [330u64, 331, 400, 1000] {
        if sched.on_tick(t) {
            fires += 1;
        }
    }
    assert_eq!(fires, 1);
    // once the rebuild is done, a fresh event starts a new burst
    sched.build_finished();
    assert!(!sched.on_tick(2000));
    sched.on_event(2000);
    assert!(!sched.on_tick(2100));
    assert!(sched.on_tick(2250));
    assert_eq!(fires, 1);
}
