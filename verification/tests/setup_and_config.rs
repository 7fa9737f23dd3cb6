use analytic_engine::config::{
    HttpOptions, LocalOptions, ObjectStoreOptions, ObkvConfig, ObkvOptions, ReadableDuration,
    ReadableSize, RetryOptions, StorageOptions, DEFAULT_ROOT_PATH, GIB, KIB, MIB,
};
use analytic_engine::instance::ReadFrequency;
use analytic_engine::setup::{
    open_storage, open_wal_and_manifest_with_table_kv, DiskCachePlan, Error, KafkaStorageConfig,
    KafkaWalConfig, KafkaWalsOpener, MemCachePlan, MemCacheUse, MemWalsOpener, NamespaceConfig,
    ObkvStorageConfig, ObkvWalsOpener, OpenedWals, RocksDBConfig, RocksDBStorageConfig,
    RocksDBWalsOpener, StoreStack, WalKind, WalPlan, WalStorageConfig, WalsOpener,
    DISK_CACHE_DIR_NAME, MANIFEST_DIR_NAME, STORE_DIR_NAME, WAL_DIR_NAME,
};
use analytic_engine::table_options::{TableOptions, UpdateMode};

fn rocks_namespace(max_background_jobs: i32) -> RocksDBConfig {
    RocksDBConfig {
        max_subcompactions: 1,
        max_background_jobs,
        enable_statistics: false,
        write_buffer_size: ReadableSize::mb(64),
        max_write_buffer_number: 2,
        level_zero_file_num_compaction_trigger: 4,
        level_zero_slowdown_writes_trigger: 20,
        level_zero_stop_writes_trigger: 36,
        fifo_compaction_max_table_files_size: ReadableSize::gb(1),
    }
}

fn rocks() -> WalStorageConfig {
    WalStorageConfig::RocksDB(Box::new(RocksDBStorageConfig {
        data_dir: "/data".to_string(),
        data_namespace: rocks_namespace(2),
        meta_namespace: rocks_namespace(5),
    }))
}

fn kv_namespace(wal_shard_num: usize) -> NamespaceConfig {
    NamespaceConfig {
        wal_shard_num,
        region_meta_shard_num: 8,
        ttl: Some(ReadableDuration::secs(3600)),
        init_scan_timeout: ReadableDuration::secs(10),
        init_scan_batch_size: 100,
    }
}

fn obkv_storage() -> ObkvStorageConfig {
    ObkvStorageConfig {
        obkv: ObkvConfig {
            full_user_name: "u".to_string(),
            param_url: "p".to_string(),
            password: "SECRET-REDACTED".to_string(),
        },
        data_namespace: kv_namespace(512),
        meta_namespace: kv_namespace(128),
    }
}

fn kafka() -> WalStorageConfig {
    WalStorageConfig::Kafka(Box::new(KafkaStorageConfig {
        boost_brokers: vec!["b:9092".to_string()],
        data_namespace: KafkaWalConfig { clean_period: ReadableDuration::secs(60), ttl: None },
        meta_namespace: KafkaWalConfig {
            clean_period: ReadableDuration::secs(30),
            ttl: Some(ReadableDuration::secs(7)),
        },
    }))
}

fn storage(mem: u64, disk: u64) -> StorageOptions {
    StorageOptions {
        mem_cache_capacity: ReadableSize(mem),
        mem_cache_partition_bits: 3,
        mem_cache_prefix_paths: Vec::new(),
        disk_cache_capacity: ReadableSize(disk),
        disk_cache_page_size: ReadableSize(4096),
        disk_cache_partition_bits: 2,
        disk_cache_dir: "/cache".to_string(),
        object_store: ObjectStoreOptions::Local(LocalOptions { data_dir: "/data".to_string() }),
    }
}

#[test]
fn rocksdb_logs_lie_below_the_data_directory() {
    let wals = RocksDBWalsOpener.open_wals(&rocks()).unwrap();
    assert_eq!(
        wals,
        OpenedWals {
            data_wal: WalPlan::Rocks {
                data_dir: "/data".to_string(),
                dir_name: "wal".to_string(),
                options: rocks_namespace(2),
            },
            manifest_wal: WalPlan::Rocks {
                data_dir: "/data".to_string(),
                dir_name: "manifest".to_string(),
                options: rocks_namespace(5),
            },
        }
    );
    assert_eq!((WAL_DIR_NAME, MANIFEST_DIR_NAME), ("wal", "manifest"));
    assert_eq!((STORE_DIR_NAME, DISK_CACHE_DIR_NAME), ("store", "sst_cache"));
}

#[test]
fn an_opener_rejects_the_options_of_another_kind_of_log() {
    let obkv = WalStorageConfig::Obkv(Box::new(obkv_storage()));
    assert_eq!(
        RocksDBWalsOpener.open_wals(&obkv),
        Err(Error::InvalidWalConfig { expected: WalKind::RocksDB, given: WalKind::Obkv })
    );
    assert_eq!(
        RocksDBWalsOpener.open_wals(&kafka()),
        Err(Error::InvalidWalConfig { expected: WalKind::RocksDB, given: WalKind::Kafka })
    );
    assert_eq!(
        ObkvWalsOpener.open_wals(&rocks()),
        Err(Error::InvalidWalConfig { expected: WalKind::Obkv, given: WalKind::RocksDB })
    );
    assert_eq!(
        MemWalsOpener.open_wals(&kafka()),
        Err(Error::InvalidWalConfig { expected: WalKind::Obkv, given: WalKind::Kafka })
    );
    assert_eq!(
        KafkaWalsOpener.open_wals(&obkv),
        Err(Error::InvalidWalConfig { expected: WalKind::Kafka, given: WalKind::Obkv })
    );
    assert_eq!(obkv.kind(), WalKind::Obkv);
}

#[test]
fn table_store_logs_take_the_options_of_their_namespaces() {
    let expected = OpenedWals {
        data_wal: WalPlan::TableKv { namespace: "wal".to_string(), options: kv_namespace(512) },
        manifest_wal: WalPlan::TableKv {
            namespace: "manifest".to_string(),
            options: kv_namespace(128),
        },
    };
    assert_eq!(open_wal_and_manifest_with_table_kv(&obkv_storage()), expected);
    let obkv = WalStorageConfig::Obkv(Box::new(obkv_storage()));
    assert_eq!(ObkvWalsOpener.open_wals(&obkv).as_ref(), Ok(&expected));
    assert_eq!(MemWalsOpener.open_wals(&obkv), Ok(expected));
}

#[test]
fn kafka_logs_take_the_options_of_their_namespaces() {
    let wals = KafkaWalsOpener.open_wals(&kafka()).unwrap();
    assert_eq!(
        wals.data_wal,
        WalPlan::Kafka {
            namespace: "wal".to_string(),
            options: KafkaWalConfig { clean_period: ReadableDuration(60_000), ttl: None },
        }
    );
    assert_eq!(
        wals.manifest_wal,
        WalPlan::Kafka {
            namespace: "manifest".to_string(),
            options: KafkaWalConfig {
                clean_period: ReadableDuration(30_000),
                ttl: Some(ReadableDuration(7_000)),
            },
        }
    );
}

#[test]
fn a_store_without_caches_is_one_stack() {
    let storages = open_storage(storage(0, 0));
    let stack = StoreStack { mem_cache: MemCacheUse::NoCache, disk_cache: false, with_metrics: true };
    assert_eq!(storages.disk_cache, None);
    assert_eq!(storages.mem_cache, None);
    assert_eq!(storages.default_store(), stack);
    assert_eq!(storages.pick_by_freq(ReadFrequency::Once), stack);
    assert_eq!(storages.pick_by_freq(ReadFrequency::Frequent), stack);
    assert_eq!(
        storages.object_store,
        ObjectStoreOptions::Local(LocalOptions { data_dir: "/data".to_string() })
    );
}

#[test]
fn rows_that_are_read_once_do_not_enter_the_cache_in_memory() {
    let storages = open_storage(storage(1 << 20, 8 << 20));
    assert_eq!(
        storages.disk_cache,
        Some(DiskCachePlan {
            dir: "/cache".to_string(),
            dir_name: "sst_cache".to_string(),
            capacity: 8 << 20,
            page_size: 4096,
            partition_bits: 2,
        })
    );
    assert_eq!(storages.mem_cache, Some(MemCachePlan { partition_bits: 3, capacity: 1 << 20 }));
    assert_eq!(
        storages.pick_by_freq(ReadFrequency::Frequent),
        StoreStack { mem_cache: MemCacheUse::ReadWrite, disk_cache: true, with_metrics: true }
    );
    assert_eq!(
        storages.pick_by_freq(ReadFrequency::Once),
        StoreStack { mem_cache: MemCacheUse::ReadOnly, disk_cache: true, with_metrics: true }
    );
    let disk_only = open_storage(storage(0, 1));
    assert!(disk_only.disk_cache.is_some() && disk_only.mem_cache.is_none());
    assert_eq!(disk_only.default_store(), disk_only.pick_by_freq(ReadFrequency::Once));
    assert!(disk_only.default_store().disk_cache);
}

#[test]
fn storage_options_default_to_a_local_store_with_a_cache_in_memory() {
    let options = StorageOptions::default();
    assert_eq!(options.mem_cache_capacity, ReadableSize(512 << 20));
    assert_eq!(options.mem_cache_partition_bits, 6);
    assert!(options.mem_cache_prefix_paths.is_empty());
    assert_eq!(options.disk_cache_dir, "/tmp/ceresdb");
    assert_eq!(options.disk_cache_capacity, ReadableSize(0));
    assert_eq!(options.disk_cache_page_size, ReadableSize(2 << 20));
    assert_eq!(options.disk_cache_partition_bits, 4);
    assert_eq!(
        options.object_store,
        ObjectStoreOptions::Local(LocalOptions { data_dir: DEFAULT_ROOT_PATH.to_string() })
    );
}

#[test]
fn object_store_options_have_their_defaults() {
    assert_eq!(ObkvOptions::default_max_object_size(), ReadableSize(1 << 30));
    assert_eq!(ObkvOptions::default_part_size(), ReadableSize(1 << 20));
    assert_eq!(ObkvOptions::default_shard_num(), 512);
    assert_eq!(ObkvOptions::default_upload_parallelism(), 8);
    assert_eq!(
        HttpOptions::default(),
        HttpOptions {
            pool_max_idle_per_host: 1024,
            timeout: ReadableDuration(60_000),
            keep_alive_timeout: ReadableDuration(60_000),
            keep_alive_interval: ReadableDuration(2_000),
        }
    );
    assert_eq!(
        RetryOptions::default(),
        RetryOptions { max_retries: 3, retry_timeout: ReadableDuration(180_000) }
    );
}

#[test]
fn sizes_and_durations_count_in_bytes_and_milliseconds() {
    assert_eq!((KIB, MIB, GIB), (1 << 10, 1 << 20, 1 << 30));
    assert_eq!(ReadableSize::kb(3).as_byte(), 3072);
    assert_eq!(ReadableSize::mb(2).as_byte(), 2 << 20);
    assert_eq!(ReadableSize::gb(5).as_byte(), 5 << 30);
    assert_eq!(ReadableDuration::secs(90).as_millis(), 90_000);
}

#[test]
fn table_options_have_their_defaults() {
    let options = TableOptions::default();
    assert_eq!(options.segment_duration, None);
    assert_eq!(options.update_mode, UpdateMode::Overwrite);
    assert!(options.enable_ttl);
    assert_eq!(options.ttl, 7 * 24 * 3_600_000);
    assert_eq!(options.write_buffer_size, 32 << 20);
    assert_eq!(options.num_rows_per_row_group, 8192);
    assert_eq!(options.arena_block_size, 2 << 20);
    assert_eq!(options.compaction.l0_file_num_trigger, 2);
    assert_eq!(options.compaction.l0_size_trigger, 2 << 30);
    assert!(options.is_valid());
}

#[test]
fn an_engine_is_built_from_its_options_and_its_logs() {
    let config = analytic_engine::instance::open::Config {
        table_opts: TableOptions::default(),
        compaction: TableOptions::default().compaction,
        sst_meta_cache_cap: Some(1000),
        sst_background_read_parallelism: 8,
        scan_max_record_batches_in_flight: 1024,
        scan_batch_size: Some(250),
        max_rows_in_write_queue: 7,
        db_write_buffer_size: 11,
        space_write_buffer_size: 13,
        replay_batch_size: 500,
        write_sst_max_buffer_size: ReadableSize::mb(10),
        max_retry_flush_limit: 3,
        max_bytes_per_write_batch: None,
        recover_mode: analytic_engine::instance::RecoverMode::TableBased,
    };
    let opened_wals = RocksDBWalsOpener.open_wals(&rocks()).unwrap();
    let data_wal = RocksDBWalsOpener.open_wals(&rocks()).unwrap().data_wal;
    let manifest_wal = RocksDBWalsOpener.open_wals(&rocks()).unwrap().manifest_wal;
    assert_ne!(data_wal, manifest_wal);
    let built = analytic_engine::setup::EngineBuilder {
        config,
        storage: storage(1 << 20, 0),
        opened_wals,
    }
    .build();
    assert_eq!(built.storages, open_storage(storage(1 << 20, 0)));
    assert_eq!(
        built.manifest_store,
        StoreStack { mem_cache: MemCacheUse::ReadWrite, disk_cache: false, with_metrics: true }
    );
    assert_eq!(built.data_wal, data_wal);
    assert_eq!(built.manifest_wal, manifest_wal);
    assert!(built.instance.space_store.has_meta_cache);
    assert!(built.instance.space_store.spaces.spaces.is_empty());
    assert_eq!(built.instance.db_write_buffer_size, 11);
    assert_eq!(built.instance.max_rows_in_write_queue, 7);

    let uncached = analytic_engine::setup::EngineBuilder {
        config: analytic_engine::instance::open::Config { sst_meta_cache_cap: None, ..config },
        storage: storage(0, 0),
        opened_wals: RocksDBWalsOpener.open_wals(&rocks()).unwrap(),
    }
    .build();
    assert!(!uncached.instance.space_store.has_meta_cache);
    assert_eq!(uncached.manifest_store.mem_cache, MemCacheUse::NoCache);
}
