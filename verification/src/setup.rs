//! Setting the engine up: which logs and which layers of the store to open.

use crate::config::{ObjectStoreOptions, ObkvConfig, ReadableDuration, ReadableSize, StorageOptions};
use crate::instance::open::{Config, OpenContext};
use crate::instance::{Instance, ReadFrequency};
use vstd::prelude::*;
use vstd::string::*;

verus! {

/// The kinds of write-ahead log.
#[derive(Clone, Copy, Debug, PartialEq, Eq, Structural)]
pub enum WalKind {
    RocksDB,
    Obkv,
    Kafka,
}

/// Why the engine cannot be set up.
#[derive(Clone, Copy, Debug, PartialEq, Eq, Structural)]
pub enum Error {
    /// The engine could not be opened.
    OpenInstance,
    /// The log of the data could not be opened.
    OpenWal,
    /// The opener was given the options of another kind of log.
    InvalidWalConfig { expected: WalKind, given: WalKind },
    /// The log of the manifest could not be opened.
    OpenManifestWal,
    /// The manifest could not be opened.
    OpenManifest,
    /// The OBKV cluster could not be reached.
    OpenObkv,
    /// A task could not be run.
    RuntimeExec,
    /// The object store could not be opened.
    OpenObjectStore,
    /// A directory could not be created.
    CreateDir,
    /// The Kafka cluster could not be reached.
    OpenKafka,
    /// The cache in memory could not be created.
    OpenMemCache,
}

/// Name of the directory, or of the namespace, of the log of the data.
pub const WAL_DIR_NAME: &'static str = "wal";

/// Name of the directory, or of the namespace, of the log of the manifest.
pub const MANIFEST_DIR_NAME: &'static str = "manifest";

/// Name of the directory of a local object store.
pub const STORE_DIR_NAME: &'static str = "store";

/// Name of the directory of the cache on disk.
pub const DISK_CACHE_DIR_NAME: &'static str = "sst_cache";

/// Options of one RocksDB log.
#[derive(Clone, Copy, Debug, PartialEq, Eq, Structural)]
pub struct RocksDBConfig {
    pub max_subcompactions: u32,
    pub max_background_jobs: i32,
    pub enable_statistics: bool,
    pub write_buffer_size: ReadableSize,
    pub max_write_buffer_number: i32,
    pub level_zero_file_num_compaction_trigger: i32,
    pub level_zero_slowdown_writes_trigger: i32,
    pub level_zero_stop_writes_trigger: i32,
    pub fifo_compaction_max_table_files_size: ReadableSize,
}

/// Options of the RocksDB logs of the data and of the manifest.
#[derive(Debug, PartialEq, Eq)]
pub struct RocksDBStorageConfig {
    pub data_dir: String,
    pub data_namespace: RocksDBConfig,
    pub meta_namespace: RocksDBConfig,
}

/// Options of one namespace of a log in a table store.
#[derive(Clone, Copy, Debug, PartialEq, Eq, Structural)]
pub struct NamespaceConfig {
    pub wal_shard_num: usize,
    pub region_meta_shard_num: usize,
    pub ttl: Option<ReadableDuration>,
    pub init_scan_timeout: ReadableDuration,
    pub init_scan_batch_size: i32,
}

/// Options of the logs in an OBKV cluster.
#[derive(Debug, PartialEq, Eq)]
pub struct ObkvStorageConfig {
    pub obkv: ObkvConfig,
    pub data_namespace: NamespaceConfig,
    pub meta_namespace: NamespaceConfig,
}

/// Options of one log in a Kafka cluster.
#[derive(Clone, Copy, Debug, PartialEq, Eq, Structural)]
pub struct KafkaWalConfig {
    pub clean_period: ReadableDuration,
    pub ttl: Option<ReadableDuration>,
}

/// Options of the logs in a Kafka cluster.
#[derive(Debug, PartialEq, Eq)]
pub struct KafkaStorageConfig {
    pub boost_brokers: Vec<String>,
    pub data_namespace: KafkaWalConfig,
    pub meta_namespace: KafkaWalConfig,
}

/// Options of the write-ahead log.
#[derive(Debug, PartialEq, Eq)]
pub enum WalStorageConfig {
    RocksDB(Box<RocksDBStorageConfig>),
    Obkv(Box<ObkvStorageConfig>),
    Kafka(Box<KafkaStorageConfig>),
}

impl WalStorageConfig {
    pub open spec fn spec_kind(self) -> WalKind {
        match self {
            WalStorageConfig::RocksDB(_) => WalKind::RocksDB,
            WalStorageConfig::Obkv(_) => WalKind::Obkv,
            WalStorageConfig::Kafka(_) => WalKind::Kafka,
        }
    }

    /// The kind of log that the options are for.
    pub fn kind(&self) -> (kind: WalKind)
        ensures
            kind == self.spec_kind(),
    {
        match self {
            WalStorageConfig::RocksDB(_) => WalKind::RocksDB,
            WalStorageConfig::Obkv(_) => WalKind::Obkv,
            WalStorageConfig::Kafka(_) => WalKind::Kafka,
        }
    }
}

/// One log to open.
#[allow(inconsistent_fields)]
#[derive(Debug, PartialEq, Eq)]
pub enum WalPlan {
    /// A RocksDB log in the directory `dir_name` below `data_dir`.
    Rocks { data_dir: String, dir_name: String, options: RocksDBConfig },
    /// A log in the namespace of a table store.
    TableKv { namespace: String, options: NamespaceConfig },
    /// A log in the namespace of a Kafka cluster.
    Kafka { namespace: String, options: KafkaWalConfig },
}

/// The logs of the engine: that of the data and that of the manifest.
#[derive(Debug, PartialEq, Eq)]
pub struct OpenedWals {
    pub data_wal: WalPlan,
    pub manifest_wal: WalPlan,
}

/// Chooses the logs of the engine from the options of the log.
pub trait WalsOpener {
    /// The kind of log that the opener opens.
    spec fn opens(&self) -> WalKind;

    /// The logs to open. The options must be of the opener's kind.
    fn open_wals(&self, config: &WalStorageConfig) -> (r: Result<OpenedWals, Error>)
        ensures
            r is Err <==> !self.accepts(*config),
            r matches Err(e) ==> e == (Error::InvalidWalConfig {
                expected: self.opens(),
                given: config.spec_kind(),
            }),
    ;

    /// The opener takes the options.
    spec fn accepts(&self, config: WalStorageConfig) -> bool;
}

/// Opens RocksDB logs.
#[derive(Default, Debug)]
pub struct RocksDBWalsOpener;

impl WalsOpener for RocksDBWalsOpener {
    open spec fn opens(&self) -> WalKind {
        WalKind::RocksDB
    }

    open spec fn accepts(&self, config: WalStorageConfig) -> bool {
        config is RocksDB
    }

    /// The log of the data lies in the directory `wal` below the data
    /// directory, that of the manifest in `manifest`, each with the options of
    /// its namespace.
    fn open_wals(&self, config: &WalStorageConfig) -> (r: Result<OpenedWals, Error>)
        ensures
            r matches Ok(wals) ==> (config matches WalStorageConfig::RocksDB(rocks) && {
                &&& wals.data_wal matches WalPlan::Rocks { data_dir, dir_name, options }
                    && data_dir == rocks.data_dir && dir_name@ == WAL_DIR_NAME@ && options
                    == rocks.data_namespace
                &&& wals.manifest_wal matches WalPlan::Rocks { data_dir, dir_name, options }
                    && data_dir == rocks.data_dir && dir_name@ == MANIFEST_DIR_NAME@ && options
                    == rocks.meta_namespace
            }),
    {
        let rocksdb_wal_config = match config {
            WalStorageConfig::RocksDB(config) => config,
            _ => {
                return Err(
                    Error::InvalidWalConfig { expected: WalKind::RocksDB, given: config.kind() },
                );
            },
        };
        Ok(
            OpenedWals {
                data_wal: WalPlan::Rocks {
                    data_dir: rocksdb_wal_config.data_dir.clone(),
                    dir_name: String::from_str(WAL_DIR_NAME),
                    options: rocksdb_wal_config.data_namespace,
                },
                manifest_wal: WalPlan::Rocks {
                    data_dir: rocksdb_wal_config.data_dir.clone(),
                    dir_name: String::from_str(MANIFEST_DIR_NAME),
                    options: rocksdb_wal_config.meta_namespace,
                },
            },
        )
    }
}

/// The logs of the data and of the manifest in a table store: one in the
/// namespace `wal`, one in the namespace `manifest`, each with its options.
pub fn open_wal_and_manifest_with_table_kv(config: &ObkvStorageConfig) -> (wals: OpenedWals)
    ensures
        wals.data_wal matches WalPlan::TableKv { namespace, options } && namespace@
            == WAL_DIR_NAME@ && options == config.data_namespace,
        wals.manifest_wal matches WalPlan::TableKv { namespace, options } && namespace@
            == MANIFEST_DIR_NAME@ && options == config.meta_namespace,
{
    OpenedWals {
        data_wal: WalPlan::TableKv {
            namespace: String::from_str(WAL_DIR_NAME),
            options: config.data_namespace,
        },
        manifest_wal: WalPlan::TableKv {
            namespace: String::from_str(MANIFEST_DIR_NAME),
            options: config.meta_namespace,
        },
    }
}

/// Opens logs in an OBKV cluster.
#[derive(Default, Debug)]
pub struct ObkvWalsOpener;

impl WalsOpener for ObkvWalsOpener {
    open spec fn opens(&self) -> WalKind {
        WalKind::Obkv
    }

    open spec fn accepts(&self, config: WalStorageConfig) -> bool {
        config is Obkv
    }

    fn open_wals(&self, config: &WalStorageConfig) -> (r: Result<OpenedWals, Error>)
        ensures
            r matches Ok(wals) ==> (config matches WalStorageConfig::Obkv(obkv) && {
                &&& wals.data_wal matches WalPlan::TableKv { namespace, options } && namespace@
                    == WAL_DIR_NAME@ && options == obkv.data_namespace
                &&& wals.manifest_wal matches WalPlan::TableKv { namespace, options } && namespace@
                    == MANIFEST_DIR_NAME@ && options == obkv.meta_namespace
            }),
    {
        let obkv_wal_config = match config {
            WalStorageConfig::Obkv(config) => config,
            _ => {
                return Err(
                    Error::InvalidWalConfig { expected: WalKind::Obkv, given: config.kind() },
                );
            },
        };
        Ok(open_wal_and_manifest_with_table_kv(obkv_wal_config))
    }
}

/// Opens logs in a table store in memory, from the options of logs in an OBKV
/// cluster. What is written outlives the engine.
#[derive(Default, Debug)]
pub struct MemWalsOpener;

impl WalsOpener for MemWalsOpener {
    open spec fn opens(&self) -> WalKind {
        WalKind::Obkv
    }

    open spec fn accepts(&self, config: WalStorageConfig) -> bool {
        config is Obkv
    }

    fn open_wals(&self, config: &WalStorageConfig) -> (r: Result<OpenedWals, Error>)
        ensures
            r matches Ok(wals) ==> (config matches WalStorageConfig::Obkv(obkv) && {
                &&& wals.data_wal matches WalPlan::TableKv { namespace, options } && namespace@
                    == WAL_DIR_NAME@ && options == obkv.data_namespace
                &&& wals.manifest_wal matches WalPlan::TableKv { namespace, options } && namespace@
                    == MANIFEST_DIR_NAME@ && options == obkv.meta_namespace
            }),
    {
        let obkv_wal_config = match config {
            WalStorageConfig::Obkv(config) => config,
            _ => {
                return Err(
                    Error::InvalidWalConfig { expected: WalKind::Obkv, given: config.kind() },
                );
            },
        };
        Ok(open_wal_and_manifest_with_table_kv(obkv_wal_config))
    }
}

/// Opens logs in a Kafka cluster.
#[derive(Default, Debug)]
pub struct KafkaWalsOpener;

impl WalsOpener for KafkaWalsOpener {
    open spec fn opens(&self) -> WalKind {
        WalKind::Kafka
    }

    open spec fn accepts(&self, config: WalStorageConfig) -> bool {
        config is Kafka
    }

    fn open_wals(&self, config: &WalStorageConfig) -> (r: Result<OpenedWals, Error>)
        ensures
            r matches Ok(wals) ==> (config matches WalStorageConfig::Kafka(kafka) && {
                &&& wals.data_wal matches WalPlan::Kafka { namespace, options } && namespace@
                    == WAL_DIR_NAME@ && options == kafka.data_namespace
                &&& wals.manifest_wal matches WalPlan::Kafka { namespace, options } && namespace@
                    == MANIFEST_DIR_NAME@ && options == kafka.meta_namespace
            }),
    {
        let kafka_wal_config = match config {
            WalStorageConfig::Kafka(config) => config,
            _ => {
                return Err(
                    Error::InvalidWalConfig { expected: WalKind::Kafka, given: config.kind() },
                );
            },
        };
        Ok(
            OpenedWals {
                data_wal: WalPlan::Kafka {
                    namespace: String::from_str(WAL_DIR_NAME),
                    options: kafka_wal_config.data_namespace,
                },
                manifest_wal: WalPlan::Kafka {
                    namespace: String::from_str(MANIFEST_DIR_NAME),
                    options: kafka_wal_config.meta_namespace,
                },
            },
        )
    }
}

/// The cache on disk to put before the store.
#[derive(Debug, PartialEq, Eq)]
pub struct DiskCachePlan {
    /// The cache lies in the directory `dir_name` below `dir`.
    pub dir: String,
    pub dir_name: String,
    pub capacity: u64,
    pub page_size: u64,
    pub partition_bits: usize,
}

/// The cache in memory to put before the store.
#[derive(Clone, Copy, Debug, PartialEq, Eq, Structural)]
pub struct MemCachePlan {
    pub partition_bits: usize,
    /// Bytes of the cache; more than none.
    pub capacity: u64,
}

/// How a stack of stores uses the cache in memory.
#[derive(Clone, Copy, Debug, PartialEq, Eq, Structural)]
pub enum MemCacheUse {
    /// The stack has no cache in memory.
    NoCache,
    /// What is read is put into the cache.
    ReadWrite,
    /// What is read is looked up in the cache, and not put into it.
    ReadOnly,
}

/// A stack of stores, from the fastest to the slowest: the cache in memory,
/// the cache on disk, then the store itself, which counts what it is asked.
#[derive(Clone, Copy, Debug, PartialEq, Eq, Structural)]
pub struct StoreStack {
    pub mem_cache: MemCacheUse,
    pub disk_cache: bool,
    pub with_metrics: bool,
}

/// The layers of stores to open.
#[derive(Debug, PartialEq, Eq)]
pub struct OpenedStorages {
    /// The store at the bottom. A local store lies in the directory `store`
    /// below its data directory, any other below its prefix.
    pub object_store: ObjectStoreOptions,
    pub disk_cache: Option<DiskCachePlan>,
    pub mem_cache: Option<MemCachePlan>,
    /// The stack that reads and writes go through.
    pub default_store: StoreStack,
    /// The stack for rows that are read once.
    pub store_with_readonly_cache: StoreStack,
}

impl OpenedStorages {
    pub fn default_store(&self) -> (store: StoreStack)
        ensures
            store == self.default_store,
    {
        self.default_store
    }

    /// The stack for reads of that frequency: rows that are read once do not
    /// go into the cache in memory.
    pub fn pick_by_freq(&self, freq: ReadFrequency) -> (store: StoreStack)
        ensures
            store == match freq {
                ReadFrequency::Once => self.store_with_readonly_cache,
                ReadFrequency::Frequent => self.default_store,
            },
    {
        match freq {
            ReadFrequency::Once => self.store_with_readonly_cache,
            ReadFrequency::Frequent => self.default_store,
        }
    }
}

/// The layers of stores to open, with access slowing down from layer to
/// layer: the cache in memory, the cache on disk, then the store itself.
/// A cache is opened where its capacity is above zero.
pub fn open_storage(opts: StorageOptions) -> (storages: OpenedStorages)
    ensures
        storages.object_store == opts.object_store,
        opts.disk_cache_capacity.0 == 0 ==> storages.disk_cache.is_none(),
        opts.disk_cache_capacity.0 > 0 ==> (storages.disk_cache matches Some(plan) && plan.dir
            == opts.disk_cache_dir && plan.dir_name@ == DISK_CACHE_DIR_NAME@ && plan.capacity
            == opts.disk_cache_capacity.0 && plan.page_size == opts.disk_cache_page_size.0
            && plan.partition_bits == opts.disk_cache_partition_bits),
        opts.mem_cache_capacity.0 == 0 ==> storages.mem_cache.is_none(),
        opts.mem_cache_capacity.0 > 0 ==> storages.mem_cache == Some(
            (MemCachePlan {
                partition_bits: opts.mem_cache_partition_bits,
                capacity: opts.mem_cache_capacity.0,
            }),
        ),
        storages.default_store == (StoreStack {
            mem_cache: if opts.mem_cache_capacity.0 > 0 {
                MemCacheUse::ReadWrite
            } else {
                MemCacheUse::NoCache
            },
            disk_cache: opts.disk_cache_capacity.0 > 0,
            with_metrics: true,
        }),
        storages.store_with_readonly_cache == (StoreStack {
            mem_cache: if opts.mem_cache_capacity.0 > 0 {
                MemCacheUse::ReadOnly
            } else {
                MemCacheUse::NoCache
            },
            disk_cache: opts.disk_cache_capacity.0 > 0,
            with_metrics: true,
        }),
{
    let disk_cache = if opts.disk_cache_capacity.as_byte() > 0 {
        Some(
            DiskCachePlan {
                dir: opts.disk_cache_dir,
                dir_name: String::from_str(DISK_CACHE_DIR_NAME),
                capacity: opts.disk_cache_capacity.as_byte(),
                page_size: opts.disk_cache_page_size.as_byte(),
                partition_bits: opts.disk_cache_partition_bits,
            },
        )
    } else {
        None
    };
    let with_disk_cache = disk_cache.is_some();
    if opts.mem_cache_capacity.as_byte() > 0 {
        OpenedStorages {
            object_store: opts.object_store,
            disk_cache,
            mem_cache: Some(
                MemCachePlan {
                    partition_bits: opts.mem_cache_partition_bits,
                    capacity: opts.mem_cache_capacity.as_byte(),
                },
            ),
            default_store: StoreStack {
                mem_cache: MemCacheUse::ReadWrite,
                disk_cache: with_disk_cache,
                with_metrics: true,
            },
            store_with_readonly_cache: StoreStack {
                mem_cache: MemCacheUse::ReadOnly,
                disk_cache: with_disk_cache,
                with_metrics: true,
            },
        }
    } else {
        let stack = StoreStack {
            mem_cache: MemCacheUse::NoCache,
            disk_cache: with_disk_cache,
            with_metrics: true,
        };
        OpenedStorages {
            object_store: opts.object_store,
            disk_cache,
            mem_cache: None,
            default_store: stack,
            store_with_readonly_cache: stack,
        }
    }
}

/// What an engine is built from: its options, those of its store, and its
/// logs.
#[derive(Debug)]
pub struct EngineBuilder {
    pub config: Config,
    pub storage: StorageOptions,
    pub opened_wals: OpenedWals,
}

/// An engine with what is to be opened for it.
#[derive(Debug)]
pub struct BuiltEngine {
    pub instance: Instance,
    pub storages: OpenedStorages,
    /// The log that the writes go to.
    pub data_wal: WalPlan,
    /// The log of the manifest.
    pub manifest_wal: WalPlan,
    /// The stack of stores that the manifest keeps its snapshots in.
    pub manifest_store: StoreStack,
}

/// Opens the engine under the options given; it caches what files say of
/// themselves where the options give that cache a capacity.
fn open_instance(config: Config) -> (instance: Instance)
    ensures
        Instance::open.ensures(
            (OpenContext { config, has_meta_cache: config.sst_meta_cache_cap.is_some() },),
            instance,
        ),
{
    let has_meta_cache = config.sst_meta_cache_cap.is_some();
    Instance::open(OpenContext { config, has_meta_cache })
}

impl EngineBuilder {
    /// Builds the engine: the layers of its store are those that its
    /// options ask for, the manifest keeps its snapshots in the stack that
    /// reads and writes go through, and the engine is opened without spaces.
    pub fn build(self) -> (built: BuiltEngine)
        ensures
            open_storage.ensures((self.storage,), built.storages),
            built.manifest_store == built.storages.default_store,
            built.data_wal == self.opened_wals.data_wal,
            built.manifest_wal == self.opened_wals.manifest_wal,
            Instance::open.ensures(
                (
                    OpenContext {
                        config: self.config,
                        has_meta_cache: self.config.sst_meta_cache_cap.is_some(),
                    },
                ),
                built.instance,
            ),
    {
        let storages = open_storage(self.storage);
        let manifest_store = storages.default_store();
        let instance = open_instance(self.config);
        BuiltEngine {
            instance,
            storages,
            data_wal: self.opened_wals.data_wal,
            manifest_wal: self.opened_wals.manifest_wal,
            manifest_store,
        }
    }
}

} // verus!
