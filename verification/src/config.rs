//! Effective configuration: format, plugin, storage, streaming and
//! processing settings, with their defaults.
//!
//! Serialized forms live outside the core; here the fields are plain
//! values. The backoff multiplier is held in hundredths so that the
//! core never holds a machine float, and per-plugin settings are held
//! as raw text under the plugin's name.

use vstd::prelude::*;

use crate::bytesutil::bytes_eq;

verus! {

/// Delimited text format settings.
#[derive(Clone, Debug)]
pub struct CsvConfig {
    pub batch_size: usize,
    pub default_has_header: bool,
    pub schema_sample_size: usize,
    pub max_sample_bytes: usize,
    pub delimiter: u8,
    pub quote: u8,
}

/// Columnar binary format settings.
#[derive(Clone, Debug)]
pub struct ParquetConfig {
    pub batch_size: usize,
    pub use_statistics: bool,
    pub row_group_size: usize,
    pub compression: Vec<u8>,
    pub page_size: usize,
    pub dictionary_page_size: usize,
}

/// Fallback settings for unknown formats.
#[derive(Clone, Copy, Debug, PartialEq, Eq, Structural)]
pub struct DefaultFormatConfig {
    pub batch_size: usize,
    pub schema_sample_size: usize,
}

/// Settings for every format.
#[derive(Clone, Debug)]
pub struct FormatConfig {
    pub csv: CsvConfig,
    pub parquet: ParquetConfig,
    pub default: DefaultFormatConfig,
}

/// Which plugin versions are accepted against the host version.
#[derive(Clone, Copy, Debug, PartialEq, Eq, Structural)]
pub enum VersionCompatibility {
    Exact,
    Major,
    Minor,
    Any,
}

/// Plugin system settings.
#[derive(Clone, Debug)]
pub struct PluginConfig {
    pub plugin_dir: Option<Vec<u8>>,
    pub enable_plugins: bool,
    pub plugin_configs: Vec<(Vec<u8>, Vec<u8>)>,
    pub load_timeout_secs: u64,
    pub enable_hot_reload: bool,
    pub hot_reload_interval_secs: u64,
    pub version_compatibility: VersionCompatibility,
}

/// Retry policy for storage operations; the multiplier is in
/// hundredths (200 means 2.0).
#[derive(Clone, Copy, Debug, PartialEq, Eq, Structural)]
pub struct RetryConfig {
    pub max_retries: u32,
    pub initial_delay_ms: u64,
    pub max_delay_ms: u64,
    pub backoff_multiplier_hundredths: u64,
}

/// Storage settings.
#[derive(Clone, Copy, Debug, PartialEq, Eq, Structural)]
pub struct StorageConfig {
    pub read_buffer_size: usize,
    pub write_buffer_size: usize,
    pub max_concurrent_requests: usize,
    pub retry: RetryConfig,
}

/// Streaming settings.
#[derive(Clone, Copy, Debug, PartialEq, Eq, Structural)]
pub struct StreamingConfig {
    pub max_buffer_memory: usize,
    pub buffer_pool_size: usize,
    pub read_timeout_secs: u64,
    pub write_timeout_secs: u64,
    pub enable_backpressure: bool,
    pub max_in_flight_batches: usize,
}

/// Processing settings.
#[derive(Clone, Copy, Debug, PartialEq, Eq, Structural)]
pub struct ProcessingConfig {
    pub max_memory_bytes: usize,
    pub use_memory_mapping: bool,
    pub parallel_threads: usize,
}

/// The whole effective configuration.
#[derive(Clone, Debug)]
pub struct Config {
    pub formats: FormatConfig,
    pub plugins: PluginConfig,
    pub storage: StorageConfig,
    pub processing: ProcessingConfig,
    pub streaming: StreamingConfig,
}

/// The name of the snappy compression codec.
pub open spec fn snappy_text() -> Seq<u8> {
    seq![115u8, 110u8, 97u8, 112u8, 112u8, 121u8]
}

/// The name of the delimited text format.
pub open spec fn csv_name() -> Seq<u8> {
    seq![99u8, 115u8, 118u8]
}

/// The name of the columnar binary format.
pub open spec fn parquet_name() -> Seq<u8> {
    seq![112u8, 97u8, 114u8, 113u8, 117u8, 101u8, 116u8]
}

/// Relies on num_cpus::get for the number of logical CPUs; its
/// documentation promises a result of at least one.
#[verifier::external_body]
fn detected_parallelism() -> (r: usize)
    ensures
        r >= 1,
{
    num_cpus::get()
}

impl Default for Config {
    /// The default configuration.
    fn default() -> (r: Config)
        ensures
            r.formats.csv.batch_size == 1024,
            r.formats.csv.default_has_header == true,
            r.formats.csv.schema_sample_size == 1000,
            r.formats.csv.max_sample_bytes == 1048576,
            r.formats.csv.delimiter == 44,
            r.formats.csv.quote == 34,
            r.formats.parquet.batch_size == 1024,
            r.formats.parquet.use_statistics == true,
            r.formats.parquet.row_group_size == 134217728,
            r.formats.parquet.compression@ == snappy_text(),
            r.formats.parquet.page_size == 1048576,
            r.formats.parquet.dictionary_page_size == 2097152,
            r.formats.default == (DefaultFormatConfig { batch_size: 1024, schema_sample_size: 1000 }),
            r.plugins.plugin_dir is None,
            r.plugins.enable_plugins == false,
            r.plugins.plugin_configs@.len() == 0,
            r.plugins.load_timeout_secs == 30,
            r.plugins.enable_hot_reload == false,
            r.plugins.hot_reload_interval_secs == 60,
            r.plugins.version_compatibility == VersionCompatibility::Major,
            r.storage == (StorageConfig {
                read_buffer_size: 8388608,
                write_buffer_size: 8388608,
                max_concurrent_requests: 10,
                retry: RetryConfig {
                    max_retries: 3,
                    initial_delay_ms: 100,
                    max_delay_ms: 5000,
                    backoff_multiplier_hundredths: 200,
                },
            }),
            r.streaming == (StreamingConfig {
                max_buffer_memory: 268435456,
                buffer_pool_size: 32,
                read_timeout_secs: 300,
                write_timeout_secs: 300,
                enable_backpressure: true,
                max_in_flight_batches: 4,
            }),
            r.processing.max_memory_bytes == 1073741824,
            r.processing.use_memory_mapping == true,
            r.processing.parallel_threads >= 1,
    {
        let compression: Vec<u8> = vec![115, 110, 97, 112, 112, 121];
        proof {
            assert(compression@ =~= snappy_text());
        }
        Config {
            formats: FormatConfig {
                csv: CsvConfig {
                    batch_size: 1024,
                    default_has_header: true,
                    schema_sample_size: 1000,
                    max_sample_bytes: 1048576,
                    delimiter: 44,
                    quote: 34,
                },
                parquet: ParquetConfig {
                    batch_size: 1024,
                    use_statistics: true,
                    row_group_size: 134217728,
                    compression,
                    page_size: 1048576,
                    dictionary_page_size: 2097152,
                },
                default: DefaultFormatConfig { batch_size: 1024, schema_sample_size: 1000 },
            },
            plugins: PluginConfig {
                plugin_dir: None,
                enable_plugins: false,
                plugin_configs: Vec::new(),
                load_timeout_secs: 30,
                enable_hot_reload: false,
                hot_reload_interval_secs: 60,
                version_compatibility: VersionCompatibility::Major,
            },
            storage: StorageConfig {
                read_buffer_size: 8388608,
                write_buffer_size: 8388608,
                max_concurrent_requests: 10,
                retry: RetryConfig {
                    max_retries: 3,
                    initial_delay_ms: 100,
                    max_delay_ms: 5000,
                    backoff_multiplier_hundredths: 200,
                },
            },
            processing: ProcessingConfig {
                max_memory_bytes: 1073741824,
                use_memory_mapping: true,
                parallel_threads: detected_parallelism(),
            },
            streaming: StreamingConfig {
                max_buffer_memory: 268435456,
                buffer_pool_size: 32,
                read_timeout_secs: 300,
                write_timeout_secs: 300,
                enable_backpressure: true,
                max_in_flight_batches: 4,
            },
        }
    }
}

/// Batch size and schema sample size for one format.
#[derive(Clone, Copy, Debug, PartialEq, Eq, Structural)]
pub struct FormatSettings {
    pub batch_size: usize,
    pub sample_size: usize,
}

/// The settings a format name selects: its own for the two built-in
/// names, the fallback for everything else.
pub open spec fn format_settings_of(config: &Config, format: Seq<u8>) -> FormatSettings {
    if format == csv_name() {
        FormatSettings {
            batch_size: config.formats.csv.batch_size,
            sample_size: config.formats.csv.schema_sample_size,
        }
    } else if format == parquet_name() {
        FormatSettings {
            batch_size: config.formats.parquet.batch_size,
            sample_size: config.formats.parquet.batch_size,
        }
    } else {
        FormatSettings {
            batch_size: config.formats.default.batch_size,
            sample_size: config.formats.default.schema_sample_size,
        }
    }
}

/// The first configuration entry stored under a plugin name.
pub open spec fn plugin_config_lookup(entries: Seq<(Vec<u8>, Vec<u8>)>, name: Seq<u8>) -> Option<
    Seq<u8>,
>
    decreases entries.len(),
{
    if entries.len() == 0 {
        None
    } else if entries.first().0@ == name {
        Some(entries.first().1@)
    } else {
        plugin_config_lookup(entries.drop_first(), name)
    }
}

impl Config {
    /// Batch size and sample size for a format name.
    pub fn get_format_config(&self, format: &Vec<u8>) -> (r: FormatSettings)
        ensures
            r == format_settings_of(self, format@),
    {
        let csv_lit: Vec<u8> = vec![99, 115, 118];
        let parquet_lit: Vec<u8> = vec![112, 97, 114, 113, 117, 101, 116];
        proof {
            assert(csv_lit@ =~= csv_name());
            assert(parquet_lit@ =~= parquet_name());
        }
        if bytes_eq(format, &csv_lit) {
            FormatSettings {
                batch_size: self.formats.csv.batch_size,
                sample_size: self.formats.csv.schema_sample_size,
            }
        } else if bytes_eq(format, &parquet_lit) {
            FormatSettings {
                batch_size: self.formats.parquet.batch_size,
                sample_size: self.formats.parquet.batch_size,
            }
        } else {
            FormatSettings {
                batch_size: self.formats.default.batch_size,
                sample_size: self.formats.default.schema_sample_size,
            }
        }
    }

    /// The raw configuration text stored under a plugin name.
    pub fn get_plugin_config(&self, plugin_name: &Vec<u8>) -> (r: Option<Vec<u8>>)
        ensures
            match r {
                Some(v) => plugin_config_lookup(self.plugins.plugin_configs@, plugin_name@)
                    == Some(v@),
                None => plugin_config_lookup(self.plugins.plugin_configs@, plugin_name@) is None,
            },
    {
        let n: usize = self.plugins.plugin_configs.len();
        proof {
            assert(self.plugins.plugin_configs@.subrange(0, n as int)
                =~= self.plugins.plugin_configs@);
        }
        for i in 0..n
            invariant
                n == self.plugins.plugin_configs@.len(),
                plugin_config_lookup(self.plugins.plugin_configs@, plugin_name@)
                    == plugin_config_lookup(
                    self.plugins.plugin_configs@.subrange(i as int, n as int),
                    plugin_name@,
                ),
        {
            let entry = &self.plugins.plugin_configs[i];
            let ghost rest = self.plugins.plugin_configs@.subrange(i as int, n as int);
            proof {
                assert(rest.first() == self.plugins.plugin_configs@[i as int]);
                assert(rest.drop_first() =~= self.plugins.plugin_configs@.subrange(
                    i as int + 1,
                    n as int,
                ));
            }
            if crate::bytesutil::bytes_eq(&entry.0, plugin_name) {
                return Some(crate::bytesutil::clone_bytes(&entry.1));
            }
        }
        proof {
            assert(self.plugins.plugin_configs@.subrange(n as int, n as int)
                =~= Seq::<(Vec<u8>, Vec<u8>)>::empty());
        }
        None
    }
}

/// Batch size and sample size, shared across format settings types.
pub trait FormatConfigTrait {
    /// The default number of rows per decoded batch.
    fn batch_size(&self) -> usize;

    /// The number of rows sampled for schema inference.
    fn sample_size(&self) -> usize;
}

impl FormatConfigTrait for CsvConfig {
    fn batch_size(&self) -> usize {
        self.batch_size
    }

    fn sample_size(&self) -> usize {
        self.schema_sample_size
    }
}

impl FormatConfigTrait for ParquetConfig {
    fn batch_size(&self) -> usize {
        self.batch_size
    }

    fn sample_size(&self) -> usize {
        self.batch_size
    }
}

impl FormatConfigTrait for DefaultFormatConfig {
    fn batch_size(&self) -> usize {
        self.batch_size
    }

    fn sample_size(&self) -> usize {
        self.schema_sample_size
    }
}

} // verus!
