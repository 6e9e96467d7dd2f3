use page_routes::collect::{get_routes, has_source_extension, Entry, FileCollector};
use page_routes::detect::RouteError;
use page_routes::listing::generate_page_routes;

fn file(path: &str, extension: Option<&str>) -> Entry {
    Entry { path: path.to_string(), is_dir: false, extension: extension.map(|e| e.to_string()) }
}

fn dir(path: &str, extension: Option<&str>) -> Entry {
    Entry { path: path.to_string(), is_dir: true, extension: extension.map(|e| e.to_string()) }
}

#[test]
fn source_extensions_are_ts_and_tsx() {
    assert!(has_source_extension("ts"));
    assert!(has_source_extension("tsx"));
    for e in ["", "t", "js", "jsx", "mdx", "TS", "Tsx", "tsxx", ".ts"] {
        assert!(!has_source_extension(e), "{}", e);
    }
}

#[test]
fn missing_directory_is_named() {
    match get_routes("src/pages", false) {
        Err(e) => {
            assert_eq!(e, RouteError::DirectoryNotFound { directory: "src/pages".to_string() });
            assert_eq!(e.message(), "Directory 'src/pages' not found");
        }
        Ok(_) => panic!("a scan began in a missing directory"),
    }
}

#[test]
fn scan_begins_at_the_directory() {
    let mut scan = get_routes("pages", true).expect("the directory exists");
    assert_eq!(scan.next_directory(), Some("pages".to_string()));
    assert_eq!(scan.next_directory(), None);
    assert!(scan.into_files().is_empty());
}

#[test]
fn record_sorts_entries_into_files_and_directories() {
    let mut scan = FileCollector::new("pages");
    assert_eq!(scan.next_directory(), Some("pages".to_string()));
    scan.record(&vec![
        file("pages/index.tsx", Some("tsx")),
        dir("pages/blog", None),
        file("pages/readme.md", Some("md")),
        file("pages/LICENSE", None),
        dir("pages/api.ts", Some("ts")),
        file("pages/about.ts", Some("ts")),
    ]);
    assert_eq!(scan.next_directory(), Some("pages/api.ts".to_string()));
    scan.record(&vec![]);
    assert_eq!(scan.next_directory(), Some("pages/blog".to_string()));
    scan.record(&vec![file("pages/blog/post.tsx", Some("tsx")), file("pages/blog/a.jsx", Some("jsx"))]);
    assert_eq!(scan.next_directory(), None);
    assert_eq!(
        scan.into_files(),
        vec!["pages/index.tsx", "pages/about.ts", "pages/blog/post.tsx"]
    );
}

#[test]
fn unlisted_directory_is_passed_over() {
    let mut scan = FileCollector::new("pages");
    scan.next_directory();
    scan.record(&vec![dir("pages/locked", None), file("pages/a.tsx", Some("tsx"))]);
    assert_eq!(scan.next_directory(), Some("pages/locked".to_string()));
    assert_eq!(scan.next_directory(), None);
    assert_eq!(scan.into_files(), vec!["pages/a.tsx"]);
}

#[test]
fn scan_then_listing() {
    let mut scan = get_routes("src/pages", true).expect("the directory exists");
    scan.next_directory();
    scan.record(&vec![
        file("src/pages/index.ts", Some("ts")),
        file("src/pages/_app.tsx", Some("tsx")),
        file("src/pages/about.tsx", Some("tsx")),
        dir("src/pages/about", None),
    ]);
    scan.next_directory();
    scan.record(&vec![file("src/pages/about/index.tsx", Some("tsx"))]);
    assert_eq!(generate_page_routes(scan.into_files()), vec!["/", "/about"]);
}
