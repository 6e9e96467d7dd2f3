//! Which routing convention a project follows, decided from which of its
//! candidate directories exist, and the errors a run can end with.

use vstd::prelude::*;

verus! {

/// The two file-based routing conventions.
#[derive(Debug, Clone, Copy, PartialEq, Eq, Structural)]
pub enum RouterType {
    Pages,
    App,
}

/// Why no route listing can be produced.
#[derive(Debug, PartialEq, Eq)]
pub enum RouteError {
    /// Neither a pages nor an app directory exists.
    Configuration,
    /// The project follows the app convention, which is not supported.
    UnsupportedFeature,
    /// The pages directory that was to be scanned does not exist.
    DirectoryNotFound { directory: String },
}

impl RouteError {
    /// The text shown to the user for this error.
    pub open spec fn message_text(self) -> Seq<char> {
        match self {
            RouteError::Configuration => "Neither Pages Router nor App Router detected. Please check your project structure."@,
            RouteError::UnsupportedFeature => "App Router detected. This tool currently only supports Pages Router. App Router support is under development."@,
            RouteError::DirectoryNotFound { directory } => "Directory '"@ + directory@
                + "' not found"@,
        }
    }

    /// The text shown to the user for this error.
    pub fn message(&self) -> (text: String)
        ensures
            text@ == self.message_text(),
    {
        match self {
            RouteError::Configuration => String::from_str(
                "Neither Pages Router nor App Router detected. Please check your project structure.",
            ),
            RouteError::UnsupportedFeature => String::from_str(
                "App Router detected. This tool currently only supports Pages Router. App Router support is under development.",
            ),
            RouteError::DirectoryNotFound { directory } => {
                let mut text = String::from_str("Directory '");
                text.append(directory.as_str());
                text.append("' not found");
                text
            },
        }
    }
}

/// Where the app directory is looked for.
pub open spec fn app_directory_text(src: bool) -> Seq<char> {
    if src {
        "src/app"@
    } else {
        "app"@
    }
}

/// Where the pages directory is looked for.
pub open spec fn pages_directory_text(src: bool) -> Seq<char> {
    if src {
        "src/pages"@
    } else {
        "pages"@
    }
}

/// The app directory, under `src/` where `src` is set.
pub fn app_directory(src: bool) -> (dir: &'static str)
    ensures
        dir@ == app_directory_text(src),
{
    if src {
        "src/app"
    } else {
        "app"
    }
}

/// The pages directory, under `src/` where `src` is set.
pub fn pages_directory(src: bool) -> (dir: &'static str)
    ensures
        dir@ == pages_directory_text(src),
{
    if src {
        "src/pages"
    } else {
        "pages"
    }
}

/// The convention that the two directories' existence stands for: an app
/// directory decides for the app convention whether or not pages exist too.
pub open spec fn detected(app_exists: bool, pages_exists: bool) -> Result<RouterType, RouteError> {
    if app_exists {
        Ok(RouterType::App)
    } else if pages_exists {
        Ok(RouterType::Pages)
    } else {
        Err(RouteError::Configuration)
    }
}

/// Decides the routing convention from whether the app directory and the
/// pages directory exist.
pub fn detect_router_type(app_exists: bool, pages_exists: bool) -> (found: Result<
    RouterType,
    RouteError,
>)
    ensures
        found == detected(app_exists, pages_exists),
        app_exists ==> found == Ok::<RouterType, RouteError>(RouterType::App),
        !app_exists && !pages_exists ==> found == Err::<RouterType, RouteError>(
            RouteError::Configuration,
        ),
{
    if app_exists {
        Ok(RouterType::App)
    } else if pages_exists {
        Ok(RouterType::Pages)
    } else {
        Err(RouteError::Configuration)
    }
}

/// The directory to scan for a detected convention: the pages directory
/// for the pages convention, and no directory for the app convention.
pub fn scan_directory(router: RouterType, src: bool) -> (dir: Result<&'static str, RouteError>)
    ensures
        router == RouterType::Pages ==> dir is Ok && dir->Ok_0@ == pages_directory_text(src),
        router == RouterType::App ==> dir == Err::<&'static str, RouteError>(
            RouteError::UnsupportedFeature,
        ),
{
    match router {
        RouterType::Pages => Ok(pages_directory(src)),
        RouterType::App => Err(RouteError::UnsupportedFeature),
    }
}

} // verus!
