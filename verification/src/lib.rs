//! A verified core for authoring and publishing code-narration guides.
//!
//! A guide is an ordered sequence of snapshots of an evolving source tree,
//! each paired with a rendered narrative page.  The crate models the
//! virtual file system (paths, file store, directory trees, snapshots),
//! the traversal that the viewer uses, the reducer that folds an ordered
//! revision history into snapshots, the Markdown-to-sanitised-HTML
//! pipeline, and the JSON wire form of the finished guide.

pub mod config;
pub mod directory;
pub mod errors;
pub mod file;
pub mod guide;
pub mod highlighted_chunk;
pub mod markdown;
pub mod opts;
pub mod page;
pub mod path;
pub mod reducer;
pub mod serial;
pub mod snapshot;
pub mod text;
pub mod vfs;
pub mod walker;

pub use config::{GuideConfig, PageConfig};
pub use directory::{DirEntry, FileEntry, VfsDirectory, VfsRoot};
pub use errors::GuideError;
pub use file::{VfsFile, VfsFilesHandle};
pub use guide::Guide;
pub use highlighted_chunk::HighlightedChunk;
pub use markdown::{markdown_to_html, FencedBlock};
pub use path::VfsPath;
pub use reducer::{build_guide, first_unsaved, DeltaStatus, FirstRevision, NextRevision, RevDelta, RevTreeEntry};
pub use snapshot::VfsSnapshot;
pub use vfs::Vfs;
pub use walker::{VfsDirectoryOrFile, VfsWalker, VfsWalkerEntry};
