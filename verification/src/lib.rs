//! A small persistent blob cache: an in-memory index of stored blobs backed
//! by a two-file-per-entry on-disk representation (compressed payload plus a
//! metadata descriptor), with recovery of the index from the backing
//! directory at startup.

pub mod cache;
pub mod codec;
pub mod data;
pub mod digits;
pub mod error;
pub mod id;
pub mod meta;
pub mod store;
pub mod validate;

pub use cache::{Cache, CacheEntry, PersistPlan, StoreJob, plan_persist};
pub use codec::{compress_payload, decode_payload, COMPRESSION_LEVEL};
pub use data::Metadata;
pub use data::UploadData;
pub use error::CacheError;
pub use id::EntryId;
pub use meta::encode_meta;
pub use meta::parse_meta;
pub use store::{DataFile, MetaFile, StoreDir, data_file_name, meta_file_name};

pub use validate::is_valid_extension;
pub use validate::valid_extension;
