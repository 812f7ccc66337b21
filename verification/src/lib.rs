//! Routes into the reference documentation of a library: from symbolic
//! links and from values to the page that documents them.

pub mod docs;
pub mod error;
pub mod font;
pub mod groups;
pub mod index;
pub mod laws;
pub mod namespace;
pub mod repr;
pub mod resolve;
pub mod text;

pub use crate::docs::plain_docs_sentence;
pub use crate::error::ResolveError;
pub use crate::font::summarize_font_family;
pub use crate::groups::{GroupData, GroupRegistry};
pub use crate::index::{route_of_value, SymbolIndex};
pub use crate::namespace::NamespaceTree;
pub use crate::repr::{truncated_repr, truncated_repr_};
pub use crate::resolve::{resolve, resolve_known};
