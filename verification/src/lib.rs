//! Static route listing for a file-based "pages" router.
//!
//! The library turns the paths of page source files into the URL routes a
//! framework would serve for them, and decides which routing convention a
//! project follows. It never touches the filesystem itself: callers probe
//! directories and hand the findings over as plain values.

pub mod text;
pub mod route;
pub mod listing;
pub mod detect;
pub mod collect;
