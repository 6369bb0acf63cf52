//! A storage abstraction that addresses files, directories and symlinks on
//! different backends through one path model, one object model and one set of
//! transfer operations.

pub mod error;
pub mod objects;
pub mod path;
pub mod store;
pub mod stream;
pub mod transfer;

pub use error::{ErrorView, StorageError, TransferError, TransferErrorView};
pub use path::ObjectPath;
pub use objects::{B2Object, FileObject, Object, ObjectInfo, ObjectType, Timestamp, UploadInfo};
pub use stream::{BlockingStreamReader, DataStream, StreamItem};
pub use store::{MemoryStore, WriteSink};
pub use transfer::{copy_across, copy_file, move_across, move_file, write_file_from_stream};
