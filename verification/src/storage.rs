//! Storage destinations: the local directory, an S3 bucket and an SFTP host,
//! and how a path inside a destination is located there.
use vstd::prelude::*;
use vstd::string::*;

use crate::config::{s3_dest_spec, s3_scheme, sftp_scheme, Config};
use crate::path::{join, join_spec};
use crate::text::{is_prefix, strip_prefix_all, trim_start_all};

verus! {

/// File entry in storage. `modified` is in nanoseconds since the Unix epoch;
/// `hash` is the lower-case hex SHA-256 digest of the contents, where the
/// destination knows it.
pub struct FileEntry {
    pub path: String,
    pub size: u64,
    pub modified: Option<i128>,
    pub is_directory: bool,
    pub hash: Option<String>,
}

/// File metadata. `modified` is in nanoseconds since the Unix epoch.
pub struct FileMetadata {
    pub size: u64,
    pub modified: Option<i128>,
    pub checksum: Option<String>,
}

/// Errors in choosing a storage destination.
#[derive(Debug, Clone, Copy, PartialEq, Eq, Structural)]
pub enum StorageError {
    InvalidS3Destination,
}

impl StorageError {
    pub fn message(&self) -> (r: String)
        ensures
            r@ == "Invalid S3 destination"@,
    {
        match self {
            StorageError::InvalidS3Destination => String::from_str("Invalid S3 destination"),
        }
    }
}

/// A path relative to a destination, without its leading separators.
pub open spec fn relative_part(p: Seq<char>) -> Seq<char> {
    strip_prefix_all(p, "/"@)
}

/// Local filesystem storage
pub struct LocalStorage {
    base_path: String,
}

impl LocalStorage {
    pub closed spec fn base(&self) -> Seq<char> {
        self.base_path@
    }

    pub fn new(base_path: String) -> (r: LocalStorage)
        ensures
            r.base() == base_path@,
    {
        LocalStorage { base_path }
    }

    /// The directory that this storage holds its files in.
    pub fn base_path(&self) -> (r: &str)
        ensures
            r@ == self.base(),
    {
        self.base_path.as_str()
    }

    /// Where a path of the storage lies on disk: under the base directory,
    /// with the path's leading separators dropped.
    pub fn resolve_path(&self, remote_path: &str) -> (r: String)
        ensures
            r@ == join_spec(self.base(), relative_part(remote_path@)),
    {
        proof {
            reveal_strlit("/");
        }
        let rel = trim_start_all(remote_path, "/");
        join(self.base_path.as_str(), rel.as_str())
    }
}

/// The region used when the configuration names none.
pub open spec fn default_region() -> Seq<char> {
    "us-east-1"@
}

/// S3 storage backend: the bucket and key prefix it stores under, and the
/// region of the bucket.
pub struct S3Storage {
    bucket: String,
    prefix: String,
    region: String,
}

impl S3Storage {
    pub closed spec fn bucket_spec(&self) -> Seq<char> {
        self.bucket@
    }

    pub closed spec fn prefix_spec(&self) -> Seq<char> {
        self.prefix@
    }

    pub closed spec fn region_spec(&self) -> Seq<char> {
        self.region@
    }

    /// The S3 storage that `config` describes. It fails when the destination
    /// is not an `s3://` destination.
    pub fn new(config: &Config) -> (r: Result<S3Storage, StorageError>)
        ensures
            match r {
                Ok(s) => {
                    &&& s3_dest_spec(config.destination@) == Some((s.bucket_spec(), s.prefix_spec()))
                    &&& s.region_spec() == match config.s3 {
                        Some(c) => c.region@,
                        None => default_region(),
                    }
                },
                Err(e) => s3_dest_spec(config.destination@) is None && e
                    == StorageError::InvalidS3Destination,
            },
    {
        let (bucket, prefix) = match config.parse_s3_dest() {
            Some(parts) => parts,
            None => {
                return Err(StorageError::InvalidS3Destination);
            },
        };
        let region = match &config.s3 {
            Some(c) => c.region.clone(),
            None => String::from_str("us-east-1"),
        };
        Ok(S3Storage { bucket, prefix, region })
    }

    pub fn bucket(&self) -> (r: &str)
        ensures
            r@ == self.bucket_spec(),
    {
        self.bucket.as_str()
    }

    pub fn prefix(&self) -> (r: &str)
        ensures
            r@ == self.prefix_spec(),
    {
        self.prefix.as_str()
    }

    pub fn region(&self) -> (r: &str)
        ensures
            r@ == self.region_spec(),
    {
        self.region.as_str()
    }

    /// The object key for a path: the path without its leading separators,
    /// under the prefix when there is one.
    pub fn resolve_key(&self, path: &str) -> (r: String)
        ensures
            r@ == (if self.prefix_spec().len() == 0 {
                relative_part(path@)
            } else {
                self.prefix_spec() + seq!['/'] + relative_part(path@)
            }),
    {
        proof {
            reveal_strlit("/");
        }
        let rel = trim_start_all(path, "/");
        if self.prefix.unicode_len() == 0 {
            rel
        } else {
            let mut key = self.prefix.clone();
            key.append("/");
            key.append(rel.as_str());
            key
        }
    }
}

/// SFTP storage backend
pub struct SftpStorage {
    config: Config,
}

impl SftpStorage {
    pub closed spec fn config_spec(&self) -> Config {
        self.config
    }

    pub fn new(config: &Config) -> (r: Result<SftpStorage, StorageError>)
        ensures
            r matches Ok(s) && s.config_spec().same_as(config),
    {
        Ok(SftpStorage { config: config.copy() })
    }

    pub fn config(&self) -> (r: &Config)
        ensures
            *r == self.config_spec(),
    {
        &self.config
    }
}

/// The storage a configuration syncs with.
pub enum StorageTarget {
    Local(LocalStorage),
    S3(S3Storage),
    Sftp(SftpStorage),
}

/// Storage factory
pub struct StorageFactory;

impl StorageFactory {
    /// The storage for the configuration's destination: S3 for `s3://`, SFTP
    /// for `sftp://`, and otherwise the local directory the destination names.
    pub fn create(config: &Config) -> (r: Result<StorageTarget, StorageError>)
        ensures
            r is Ok,
            is_prefix(s3_scheme(), config.destination@) ==> (r matches Ok(StorageTarget::S3(s))
                && s3_dest_spec(config.destination@) == Some((s.bucket_spec(), s.prefix_spec()))),
            !is_prefix(s3_scheme(), config.destination@) && is_prefix(
                sftp_scheme(),
                config.destination@,
            ) ==> (r matches Ok(StorageTarget::Sftp(s)) && s.config_spec().same_as(config)),
            !is_prefix(s3_scheme(), config.destination@) && !is_prefix(
                sftp_scheme(),
                config.destination@,
            ) ==> (r matches Ok(StorageTarget::Local(l)) && l.base() == config.destination@),
    {
        if config.is_s3() {
            match S3Storage::new(config) {
                Ok(s) => Ok(StorageTarget::S3(s)),
                Err(e) => Err(e),
            }
        } else if config.is_sftp() {
            match SftpStorage::new(config) {
                Ok(s) => Ok(StorageTarget::Sftp(s)),
                Err(e) => Err(e),
            }
        } else {
            Ok(StorageTarget::Local(LocalStorage::new(config.destination.clone())))
        }
    }
}

} // verus!
