//! Parsers for several configuration text formats (JSON, a property-list XML
//! dialect, TOML, YAML), all normalized into one in-memory tree so that
//! consumers never branch on the source format.
//!
//! The JSON debug parser and the plist parser are written and verified here;
//! the remaining formats go through trusted third-party parsers whose native
//! value models are converted into the same tree.

pub mod adapters;
pub mod chars;
pub mod document;
pub mod json;
pub mod json_spec;
pub mod plist;
pub mod registry;
pub mod plist_spec;
pub mod tree;

pub use document::Config;
pub use document::Error;
pub use document::Location;
pub use document::ParseFault;
pub use registry::Registry;
pub use tree::ConfigNodeID;
pub use tree::ConfigTree;
pub use tree::DebugTree;
