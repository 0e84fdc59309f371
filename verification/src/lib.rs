//! Streaming columnar data conversion core.
//!
//! The crate models record batches over a closed set of logical column
//! types and provides the verified heart of a conversion pipeline: a
//! delimited text codec whose encoder and decoder are proved inverse,
//! the validation and streaming state machine around a columnar binary
//! codec, a format registry with plugin precedence, storage-location
//! parsing with credential checks and the retry policy, configuration
//! validation, and the projection/filter/limit execution adapter. The
//! asynchronous I/O that feeds all of this lives outside the crate.

mod batch;
mod buffer_pool;
mod bytesutil;
mod config;
mod csv_format;
mod csvtext;
mod error;
mod execution;
mod numtext;
mod parquet_format;
mod pipeline;
mod plugin;
mod registry;
mod schema;
mod storage;
mod table_provider;
mod validation;

pub use error::ConvertError;
pub use error::ErrorKind;
pub use config::Config;
pub use config::CsvConfig;
pub use config::DefaultFormatConfig;
pub use config::FormatConfig;
pub use config::FormatConfigTrait;
pub use config::FormatSettings;
pub use config::ParquetConfig;
pub use config::PluginConfig;
pub use config::ProcessingConfig;
pub use config::RetryConfig;
pub use config::StorageConfig;
pub use config::StreamingConfig;
pub use config::VersionCompatibility;
pub use batch::ColumnData;
pub use batch::RecordBatch;
pub use schema::DataType;
pub use schema::Field;
pub use schema::Schema;
pub use validation::PluginDirStatus;
pub use validation::validate_config;
pub use validation::validate_formats;
pub use validation::validate_plugins;
pub use validation::validate_processing;
pub use validation::validate_storage;
pub use validation::validate_streaming;
pub use csv_format::CsvFormat;
pub use parquet_format::CompressionCodec;
pub use parquet_format::ParquetFormat;
pub use parquet_format::ReaderState;
pub use parquet_format::StreamingParquetReader;
pub use execution::FormatExecPlan;
pub use execution::FormatStream;
pub use plugin::PluginManager;
pub use plugin::PluginMetadata;
pub use plugin::Version;
pub use registry::CodecFactory;
pub use registry::FormatRegistry;
pub use table_provider::FilterPushDown;
pub use table_provider::FormatTableProvider;
pub use table_provider::TableType;
pub use storage::AzureStorage;
pub use storage::CredentialEnv;
pub use storage::LocalStorage;
pub use storage::S3Storage;
pub use storage::SchemeKind;
pub use storage::StorageLocation;
pub use storage::StorageSpec;
pub use storage::from_url;
pub use storage::next_delay;
pub use storage::parse_storage_url;
pub use storage::should_retry;
pub use buffer_pool::BufferPool;
pub use pipeline::FormatChoice;
pub use pipeline::SelectedFormat;
pub use pipeline::choose_format;
pub use pipeline::extension_of;
pub use pipeline::parse_format_choice;
