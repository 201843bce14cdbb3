//! Host side of a read-only protocol for external version control providers.

pub mod changes;
pub mod client;
pub mod commit;
pub mod content;
pub mod contents;
pub mod error;
pub mod frame;
pub mod history;
pub mod json;
pub mod model;
pub mod oid;
pub mod operation;
pub mod order;
pub mod path;
pub mod repository;
pub mod request;
pub mod status;
pub mod store;
pub mod text;
pub mod transport;

pub use crate::client::Client;
pub use crate::error::{is_size_limit_error, VcsError};
pub use crate::frame::MAX_MESSAGE_BYTES;
pub use crate::model::{
    Capabilities, Change, ChangeKind, CommitChange, Comparison, History, HistoryCommit, Reference,
    ReferenceCommit, ReferenceKind, RepositoryInfo, Snapshot, Tracking, MAX_HISTORY_COMMITS,
};
pub use crate::path::validate_path;
pub use crate::repository::ExternalRepository;
pub use crate::request::PROTOCOL_VERSION;
pub use crate::transport::read_message;
