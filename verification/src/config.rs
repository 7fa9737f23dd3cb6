//! Options of the object store that holds the segment files.

use vstd::prelude::*;
use vstd::string::*;

verus! {

/// Bytes of a kibibyte.
pub const KIB: u64 = 1024;

/// Bytes of a mebibyte.
pub const MIB: u64 = 1048576;

/// Bytes of a gibibyte.
pub const GIB: u64 = 1073741824;

/// A size in bytes.
#[derive(Clone, Copy, Debug, PartialEq, Eq, Structural)]
pub struct ReadableSize(pub u64);

impl ReadableSize {
    pub fn kb(count: u64) -> (size: ReadableSize)
        requires
            count * KIB <= u64::MAX,
        ensures
            size.0 == count * KIB,
    {
        ReadableSize(count * KIB)
    }

    pub fn mb(count: u64) -> (size: ReadableSize)
        requires
            count * MIB <= u64::MAX,
        ensures
            size.0 == count * MIB,
    {
        ReadableSize(count * MIB)
    }

    pub fn gb(count: u64) -> (size: ReadableSize)
        requires
            count * GIB <= u64::MAX,
        ensures
            size.0 == count * GIB,
    {
        ReadableSize(count * GIB)
    }

    pub fn as_byte(&self) -> (bytes: u64)
        ensures
            bytes == self.0,
    {
        self.0
    }
}

/// A span of time in milliseconds.
#[derive(Clone, Copy, Debug, PartialEq, Eq, Structural)]
pub struct ReadableDuration(pub u64);

impl ReadableDuration {
    pub fn secs(secs: u64) -> (duration: ReadableDuration)
        requires
            secs * 1000 <= u64::MAX,
        ensures
            duration.0 == secs * 1000,
    {
        ReadableDuration(secs * 1000)
    }

    pub fn as_millis(&self) -> (millis: u64)
        ensures
            millis == self.0,
    {
        self.0
    }
}

/// Options of a store in the local file system.
#[derive(Debug, PartialEq, Eq)]
pub struct LocalOptions {
    pub data_dir: String,
}

/// How the store talks over HTTP.
#[derive(Clone, Copy, Debug, PartialEq, Eq, Structural)]
pub struct HttpOptions {
    pub pool_max_idle_per_host: usize,
    pub timeout: ReadableDuration,
    pub keep_alive_timeout: ReadableDuration,
    pub keep_alive_interval: ReadableDuration,
}

impl Default for HttpOptions {
    /// 1024 idle connections to the host, a minute for a request and for an
    /// idle connection, and a keep-alive every two seconds.
    fn default() -> (options: HttpOptions)
        ensures
            options == (HttpOptions {
                pool_max_idle_per_host: 1024,
                timeout: ReadableDuration(60000),
                keep_alive_timeout: ReadableDuration(60000),
                keep_alive_interval: ReadableDuration(2000),
            }),
    {
        HttpOptions {
            pool_max_idle_per_host: 1024,
            timeout: ReadableDuration::secs(60),
            keep_alive_timeout: ReadableDuration::secs(60),
            keep_alive_interval: ReadableDuration::secs(2),
        }
    }
}

/// How often and how long the store tries again.
#[derive(Clone, Copy, Debug, PartialEq, Eq, Structural)]
pub struct RetryOptions {
    pub max_retries: usize,
    pub retry_timeout: ReadableDuration,
}

impl Default for RetryOptions {
    /// Three more tries, within three minutes.
    fn default() -> (options: RetryOptions)
        ensures
            options == (RetryOptions { max_retries: 3, retry_timeout: ReadableDuration(180000) }),
    {
        RetryOptions { max_retries: 3, retry_timeout: ReadableDuration::secs(3 * 60) }
    }
}

/// Options of a store in Aliyun OSS.
#[derive(Debug, PartialEq, Eq)]
pub struct AliyunOptions {
    pub key_id: String,
    pub key_secret: String,
    pub endpoint: String,
    pub bucket: String,
    pub prefix: String,
    pub http: HttpOptions,
    pub retry: RetryOptions,
}

/// How the client of an OBKV cluster is set up.
#[derive(Debug, PartialEq, Eq)]
pub struct ObkvConfig {
    pub full_user_name: String,
    pub param_url: String,
    pub password: String,
}

/// Options of a store in an OBKV cluster.
#[derive(Debug, PartialEq, Eq)]
pub struct ObkvOptions {
    pub prefix: String,
    pub shard_num: usize,
    pub part_size: ReadableSize,
    pub max_object_size: ReadableSize,
    pub upload_parallelism: usize,
    /// How the client of the cluster is set up.
    pub client: ObkvConfig,
}

impl ObkvOptions {
    /// The greatest size of an object where none is given: one gibibyte.
    pub fn default_max_object_size() -> (size: ReadableSize)
        ensures
            size.0 == GIB,
    {
        ReadableSize::gb(1)
    }

    /// The size of a part where none is given: one mebibyte.
    pub fn default_part_size() -> (size: ReadableSize)
        ensures
            size.0 == MIB,
    {
        ReadableSize::mb(1)
    }

    /// The number of shards where none is given.
    pub fn default_shard_num() -> (n: usize)
        ensures
            n == 512,
    {
        512
    }

    /// The number of parts uploaded at a time where none is given.
    pub fn default_upload_parallelism() -> (n: usize)
        ensures
            n == 8,
    {
        8
    }
}

/// Options of a store in S3.
#[derive(Debug, PartialEq, Eq)]
pub struct S3Options {
    pub region: String,
    pub key_id: String,
    pub key_secret: String,
    pub endpoint: String,
    pub bucket: String,
    pub prefix: String,
    pub http: HttpOptions,
    pub retry: RetryOptions,
}

/// The store that holds the segment files.
#[derive(Debug, PartialEq, Eq)]
pub enum ObjectStoreOptions {
    Local(LocalOptions),
    Aliyun(AliyunOptions),
    Obkv(ObkvOptions),
    S3(S3Options),
}

/// Options of the storage backend.
#[derive(Debug, PartialEq, Eq)]
pub struct StorageOptions {
    /// Size of the cache in memory; 0 for none.
    pub mem_cache_capacity: ReadableSize,
    pub mem_cache_partition_bits: usize,
    pub mem_cache_prefix_paths: Vec<String>,
    /// Size of the cache on disk; 0 for none.
    pub disk_cache_capacity: ReadableSize,
    pub disk_cache_page_size: ReadableSize,
    pub disk_cache_partition_bits: usize,
    pub disk_cache_dir: String,
    pub object_store: ObjectStoreOptions,
}

/// The directory that holds the data where none is given.
pub const DEFAULT_ROOT_PATH: &'static str = "/tmp/ceresdb";

impl Default for StorageOptions {
    /// A local store under the default root, with 512 MiB of cache in memory
    /// in 64 partitions, and no cache on disk.
    fn default() -> (options: StorageOptions)
        ensures
            options.mem_cache_capacity.0 == 512 * MIB,
            options.mem_cache_partition_bits == 6,
            options.mem_cache_prefix_paths@.len() == 0,
            options.disk_cache_dir@ == DEFAULT_ROOT_PATH@,
            options.disk_cache_capacity.0 == 0,
            options.disk_cache_page_size.0 == 2 * MIB,
            options.disk_cache_partition_bits == 4,
            options.object_store matches ObjectStoreOptions::Local(local) && local.data_dir@
                == DEFAULT_ROOT_PATH@,
    {
        let root_path = String::from_str(DEFAULT_ROOT_PATH);
        StorageOptions {
            mem_cache_capacity: ReadableSize::mb(512),
            mem_cache_partition_bits: 6,
            mem_cache_prefix_paths: Vec::new(),
            disk_cache_dir: root_path.clone(),
            disk_cache_capacity: ReadableSize::gb(0),
            disk_cache_page_size: ReadableSize::mb(2),
            disk_cache_partition_bits: 4,
            object_store: ObjectStoreOptions::Local(LocalOptions { data_dir: root_path }),
        }
    }
}

} // verus!
