use page_routes::detect::{
    app_directory, detect_router_type, pages_directory, scan_directory, RouteError, RouterType,
};

#[test]
fn app_directory_wins_over_pages() {
    assert_eq!(detect_router_type(true, true), Ok(RouterType::App));
    assert_eq!(detect_router_type(true, false), Ok(RouterType::App));
}

#[test]
fn pages_alone_is_pages() {
    assert_eq!(detect_router_type(false, true), Ok(RouterType::Pages));
}

#[test]
fn neither_directory_is_a_configuration_error() {
    assert_eq!(detect_router_type(false, false), Err(RouteError::Configuration));
}

#[test]
fn directory_names() {
    assert_eq!(app_directory(false), "app");
    assert_eq!(app_directory(true), "src/app");
    assert_eq!(pages_directory(false), "pages");
    assert_eq!(pages_directory(true), "src/pages");
}

#[test]
fn app_convention_is_unsupported() {
    assert_eq!(scan_directory(RouterType::App, false), Err(RouteError::UnsupportedFeature));
    assert_eq!(scan_directory(RouterType::App, true), Err(RouteError::UnsupportedFeature));
    assert_eq!(scan_directory(RouterType::Pages, false), Ok("pages"));
    assert_eq!(scan_directory(RouterType::Pages, true), Ok("src/pages"));
}

#[test]
fn error_messages() {
    assert_eq!(
        RouteError::Configuration.message(),
        "Neither Pages Router nor App Router detected. Please check your project structure."
    );
    assert_eq!(
        RouteError::UnsupportedFeature.message(),
        "App Router detected. This tool currently only supports Pages Router. App Router support is under development."
    );
    assert_eq!(
        RouteError::DirectoryNotFound { directory: "src/pages".to_string() }.message(),
        "Directory 'src/pages' not found"
    );
}
