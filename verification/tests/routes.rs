use page_routes::listing::generate_page_routes;
use page_routes::route::{file_to_url_path, is_reserved_route, remove_filename};

fn listing(files: &[&str]) -> Vec<String> {
    generate_page_routes(files.iter().map(|f| f.to_string()).collect())
}

#[test]
fn root_index_is_root() {
    assert_eq!(file_to_url_path("pages/index.tsx"), "/");
    assert_eq!(file_to_url_path("src/pages/index.ts"), "/");
}

#[test]
fn nested_index_is_its_directory() {
    assert_eq!(file_to_url_path("pages/about/index.tsx"), "/about");
    assert_eq!(file_to_url_path("src/pages/docs/api/index.ts"), "/docs/api");
}

#[test]
fn plain_file_keeps_its_name() {
    assert_eq!(file_to_url_path("pages/blog/post.tsx"), "/blog/post");
    assert_eq!(file_to_url_path("pages/about.tsx"), "/about");
    assert_eq!(file_to_url_path("src/pages/about.ts"), "/about");
}

#[test]
fn only_one_index_segment_is_dropped() {
    assert_eq!(file_to_url_path("pages/a/index/index.tsx"), "/a/index");
    assert_eq!(file_to_url_path("pages/index/index.tsx"), "/index");
}

#[test]
fn unknown_prefix_is_kept() {
    assert_eq!(file_to_url_path("other/file.tsx"), "/other/file");
    assert_eq!(file_to_url_path("src/pages/pages/a.ts"), "/pages/a");
    assert_eq!(file_to_url_path("src/other/a.ts"), "/src/other/a");
}

#[test]
fn unknown_extension_is_kept() {
    assert_eq!(file_to_url_path("pages/readme.md"), "/readme.md");
    assert_eq!(file_to_url_path("pages/x.tsx.ts"), "/x.tsx");
    assert_eq!(file_to_url_path("pages/index.d.ts"), "/index.d");
    assert_eq!(file_to_url_path("pages/about.TSX"), "/about.TSX");
}

#[test]
fn backslashes_become_slashes() {
    assert_eq!(file_to_url_path("pages/blog\\post.tsx"), "/blog/post");
    assert_eq!(file_to_url_path("pages\\blog\\post.tsx"), "/pages/blog/post");
    assert_eq!(file_to_url_path("pages/about\\index.tsx"), "/about");
    assert_eq!(file_to_url_path("pages/\\index.tsx"), "/");
}

#[test]
fn degenerate_paths_still_give_a_route() {
    assert_eq!(file_to_url_path(""), "/");
    assert_eq!(file_to_url_path("pages/"), "/");
    assert_eq!(file_to_url_path(".tsx"), "/");
    assert_eq!(file_to_url_path("index"), "/");
}

#[test]
fn non_ascii_names_pass_through() {
    assert_eq!(file_to_url_path("pages/caf\u{e9}/men\u{fc}.tsx"), "/caf\u{e9}/men\u{fc}");
    assert_eq!(file_to_url_path("pages/\u{65e5}\u{672c}/index.ts"), "/\u{65e5}\u{672c}");
}

#[test]
fn every_route_starts_with_a_slash() {
    for f in ["pages/a.tsx", "src/pages/b/c.ts", "x", "", "\\", "pages/index.tsx", "index.ts"] {
        assert!(file_to_url_path(f).starts_with('/'), "{}", f);
    }
}

#[test]
fn reserved_file_still_has_its_route() {
    assert_eq!(file_to_url_path("pages/404.tsx"), "/404");
    assert_eq!(file_to_url_path("pages/_app.tsx"), "/_app");
}

#[test]
fn reserved_routes_are_the_five() {
    for r in ["/404", "/500", "/_app", "/_document", "/_error"] {
        assert!(is_reserved_route(r), "{}", r);
    }
    for r in ["/", "/4040", "/40", "/_App", "/blog/404", "404", "/_errors", ""] {
        assert!(!is_reserved_route(r), "{}", r);
    }
}

#[test]
fn parent_of_a_route() {
    assert_eq!(remove_filename("/blog/post"), "/blog");
    assert_eq!(remove_filename("/a/b/c"), "/a/b");
    assert_eq!(remove_filename("/about"), "/");
    assert_eq!(remove_filename("/"), "/");
    assert_eq!(remove_filename("a/b"), "a");
    assert_eq!(remove_filename("/a/b/"), "/a/b");
}

#[test]
fn parent_without_a_slash_is_root() {
    assert_eq!(remove_filename("about"), "/");
    assert_eq!(remove_filename(""), "/");
}

#[test]
fn listing_drops_reserved_routes() {
    let out = listing(&[
        "pages/404.tsx",
        "pages/500.tsx",
        "pages/_app.tsx",
        "pages/_document.tsx",
        "pages/_error.tsx",
        "pages/about.tsx",
    ]);
    assert_eq!(out, vec!["/about".to_string()]);
}

#[test]
fn listing_keeps_reserved_names_below_the_top() {
    let out = listing(&["pages/blog/404.tsx", "pages/404/index.tsx", "pages/_app/x.ts"]);
    assert_eq!(out, vec!["/_app/x".to_string(), "/blog/404".to_string()]);
}

#[test]
fn same_route_is_listed_once() {
    let out = listing(&["pages/about.tsx", "pages/about/index.tsx"]);
    assert_eq!(out, vec!["/about".to_string()]);
    let out = listing(&["pages/a.ts", "pages/a.tsx", "src/pages/a.ts", "pages/a.ts"]);
    assert_eq!(out, vec!["/a".to_string()]);
}

#[test]
fn listing_is_sorted() {
    let out = listing(&[
        "pages/index.tsx",
        "pages/blog/post.tsx",
        "pages/about.tsx",
        "pages/blog/index.tsx",
        "pages/contact.ts",
    ]);
    assert_eq!(out, vec!["/", "/about", "/blog", "/blog/post", "/contact"]);
    for w in out.windows(2) {
        assert!(w[0] <= w[1]);
    }
}

#[test]
fn listing_order_is_the_order_of_strings() {
    let files = [
        "pages/b.tsx",
        "pages/B.tsx",
        "pages/a/b.tsx",
        "pages/a.tsx",
        "pages/a-b.tsx",
        "pages/\u{e9}.tsx",
        "pages/z.tsx",
        "pages/\u{1f600}.tsx",
        "pages/\u{ffff}.tsx",
        "pages/ab.tsx",
        "pages/index.tsx",
    ];
    let mut expected: Vec<String> = files.iter().map(|f| file_to_url_path(f)).collect();
    expected.sort();
    expected.dedup();
    assert_eq!(listing(&files), expected);
}

#[test]
fn listing_does_not_depend_on_input_order() {
    let a = listing(&["pages/x.tsx", "pages/index.tsx", "pages/y/index.tsx"]);
    let b = listing(&["pages/y/index.tsx", "pages/x.tsx", "pages/index.tsx"]);
    assert_eq!(a, b);
    assert_eq!(a, vec!["/", "/x", "/y"]);
}

#[test]
fn listing_of_nothing_is_empty() {
    assert!(listing(&[]).is_empty());
    assert!(listing(&["pages/_app.tsx"]).is_empty());
}
