//! Prefix-searchable dictionaries: a byte-keyed prefix index over the terms
//! of a dictionary, built lazily from dictionary files and kept per file.

pub mod codec;
pub mod dictionary;
pub mod import;
pub mod lazydict;
mod node;
pub mod order;
pub mod session;
pub mod text;
pub mod trie;
pub mod version;

pub use crate::codec::{LoadError, OdictFile, WriteError};
pub use crate::dictionary::DictionaryIndex;
pub use crate::import::{import_odict, ImportError, Imported};
pub use crate::lazydict::{init_app_dicts, LazyDict, LoadState, NotLoadedError};
pub use crate::session::{Config, Session};
pub use crate::trie::Trie;
pub use crate::version::Version;
