//! Site graph engine for a Markdown-to-HTML static site generator.
//!
//! The library discovers content pages in a source tree, resolves
//! cross-document links into collision-free output paths, derives
//! navigation and breadcrumbs from directory topology, and models the
//! watch/debounce/rebuild/serve loop of the preview mode.

pub mod config;
pub mod csv;
pub mod links;
pub mod markdown;
pub mod nav;
pub mod paths;
pub mod pipeline;
pub mod preview;
pub mod sitemap;
pub mod slides;
pub mod template;
pub mod text;
