//! Incremental site/book builder core: the watch/rebuild orchestration state
//! machine, the content-addressed asset manager, the revisioned build
//! snapshot store, and a generational span interner, with their contracts
//! verified. File and network handling, the document compiler, and the HTTP
//! layer live outside this library and talk to it through plain values.

pub mod args;
pub mod assets;
pub mod html_embed;
pub mod meta;
pub mod outline;
pub mod interner;
pub mod paths;
pub mod project;
pub mod render;
pub mod search;
pub mod snapshot;
pub mod watch;
pub mod strutil;
pub mod tui;
