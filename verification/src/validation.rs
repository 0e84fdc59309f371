//! Configuration validation: every violation is reported as a
//! configuration error, first violation wins.

use vstd::prelude::*;

use crate::bytesutil::bytes_eq;
use crate::config::Config;
use crate::config::FormatConfig;
use crate::config::PluginConfig;
use crate::config::ProcessingConfig;
use crate::config::StorageConfig;
use crate::config::StreamingConfig;
use crate::error::ConvertError;
use crate::error::ErrorKind;

verus! {

/// What the filesystem says about the configured plugin directory.
#[derive(Clone, Copy, Debug, PartialEq, Eq, Structural)]
pub enum PluginDirStatus {
    /// No such path.
    Missing,
    /// The path exists but is not a directory.
    NotADirectory,
    /// The path is a directory.
    Directory,
}

/// Is the compression name in the closed set
/// {uncompressed, snappy, gzip, brotli, lz4, zstd}?
pub open spec fn compression_name_ok(name: Seq<u8>) -> bool {
    ||| name == seq![117u8, 110u8, 99u8, 111u8, 109u8, 112u8, 114u8, 101u8, 115u8, 115u8, 101u8, 100u8]
    ||| name == seq![115u8, 110u8, 97u8, 112u8, 112u8, 121u8]
    ||| name == seq![103u8, 122u8, 105u8, 112u8]
    ||| name == seq![98u8, 114u8, 111u8, 116u8, 108u8, 105u8]
    ||| name == seq![108u8, 122u8, 52u8]
    ||| name == seq![122u8, 115u8, 116u8, 100u8]
}

/// Decide membership in the compression set.
pub fn compression_ok(name: &Vec<u8>) -> (r: bool)
    ensures
        r == compression_name_ok(name@),
{
    let uncompressed: Vec<u8> = vec![117, 110, 99, 111, 109, 112, 114, 101, 115, 115, 101, 100];
    let snappy: Vec<u8> = vec![115, 110, 97, 112, 112, 121];
    let gzip: Vec<u8> = vec![103, 122, 105, 112];
    let brotli: Vec<u8> = vec![98, 114, 111, 116, 108, 105];
    let lz4: Vec<u8> = vec![108, 122, 52];
    let zstd: Vec<u8> = vec![122, 115, 116, 100];
    proof {
        assert(uncompressed@ =~= seq![
            117u8,
            110u8,
            99u8,
            111u8,
            109u8,
            112u8,
            114u8,
            101u8,
            115u8,
            115u8,
            101u8,
            100u8,
        ]);
        assert(snappy@ =~= seq![115u8, 110u8, 97u8, 112u8, 112u8, 121u8]);
        assert(gzip@ =~= seq![103u8, 122u8, 105u8, 112u8]);
        assert(brotli@ =~= seq![98u8, 114u8, 111u8, 116u8, 108u8, 105u8]);
        assert(lz4@ =~= seq![108u8, 122u8, 52u8]);
        assert(zstd@ =~= seq![122u8, 115u8, 116u8, 100u8]);
    }
    bytes_eq(name, &uncompressed) || bytes_eq(name, &snappy) || bytes_eq(name, &gzip) || bytes_eq(
        name,
        &brotli,
    ) || bytes_eq(name, &lz4) || bytes_eq(name, &zstd)
}

/// Are the format settings valid: every size at least one and the
/// compression name in the closed set?
pub open spec fn formats_valid(config: &FormatConfig) -> bool {
    &&& config.csv.batch_size >= 1
    &&& config.csv.schema_sample_size >= 1
    &&& config.csv.max_sample_bytes >= 1
    &&& config.parquet.batch_size >= 1
    &&& config.parquet.row_group_size >= 1
    &&& config.parquet.page_size >= 1
    &&& config.parquet.dictionary_page_size >= 1
    &&& compression_name_ok(config.parquet.compression@)
    &&& config.default.batch_size >= 1
    &&& config.default.schema_sample_size >= 1
}

/// Validate the format settings.
pub fn validate_formats(config: &FormatConfig) -> (r: Result<(), ConvertError>)
    ensures
        r is Ok <==> formats_valid(config),
        r matches Err(e) ==> e.kind == ErrorKind::Configuration,
{
    if config.csv.batch_size == 0 {
        return Err(ConvertError::text(ErrorKind::Configuration, "CSV batch size cannot be zero"));
    }
    if config.csv.schema_sample_size == 0 {
        return Err(
            ConvertError::text(ErrorKind::Configuration, "CSV schema sample size cannot be zero"),
        );
    }
    if config.csv.max_sample_bytes == 0 {
        return Err(
            ConvertError::text(ErrorKind::Configuration, "CSV max sample bytes cannot be zero"),
        );
    }
    if config.parquet.batch_size == 0 {
        return Err(
            ConvertError::text(ErrorKind::Configuration, "Parquet batch size cannot be zero"),
        );
    }
    if config.parquet.row_group_size == 0 {
        return Err(
            ConvertError::text(ErrorKind::Configuration, "Parquet row group size cannot be zero"),
        );
    }
    if config.parquet.page_size == 0 {
        return Err(
            ConvertError::text(ErrorKind::Configuration, "Parquet page size cannot be zero"),
        );
    }
    if config.parquet.dictionary_page_size == 0 {
        return Err(
            ConvertError::text(
                ErrorKind::Configuration,
                "Parquet dictionary page size cannot be zero",
            ),
        );
    }
    if !compression_ok(&config.parquet.compression) {
        return Err(
            ConvertError::text(ErrorKind::Configuration, "invalid Parquet compression codec"),
        );
    }
    if config.default.batch_size == 0 {
        return Err(
            ConvertError::text(ErrorKind::Configuration, "default batch size cannot be zero"),
        );
    }
    if config.default.schema_sample_size == 0 {
        return Err(
            ConvertError::text(
                ErrorKind::Configuration,
                "default schema sample size cannot be zero",
            ),
        );
    }
    Ok(())
}

/// Are the plugin settings valid, given what the filesystem says about
/// the configured directory? The directory must exist and be a
/// directory exactly when plugins are enabled.
pub open spec fn plugins_valid(config: &PluginConfig, dir_status: PluginDirStatus) -> bool {
    &&& (config.enable_plugins ==> config.plugin_dir is Some && dir_status
        == PluginDirStatus::Directory)
    &&& config.load_timeout_secs >= 1
    &&& (config.enable_hot_reload ==> config.hot_reload_interval_secs >= 1)
}

/// Validate the plugin settings against the probed directory status.
pub fn validate_plugins(config: &PluginConfig, dir_status: PluginDirStatus) -> (r: Result<
    (),
    ConvertError,
>)
    ensures
        r is Ok <==> plugins_valid(config, dir_status),
        r matches Err(e) ==> e.kind == ErrorKind::Configuration,
{
    if config.enable_plugins {
        match &config.plugin_dir {
            Some(_) => {
                if dir_status == PluginDirStatus::Missing {
                    return Err(
                        ConvertError::text(
                            ErrorKind::Configuration,
                            "plugin directory does not exist",
                        ),
                    );
                }
                if dir_status == PluginDirStatus::NotADirectory {
                    return Err(
                        ConvertError::text(
                            ErrorKind::Configuration,
                            "plugin path is not a directory",
                        ),
                    );
                }
            },
            None => {
                return Err(
                    ConvertError::text(
                        ErrorKind::Configuration,
                        "plugin directory must be specified when plugins are enabled",
                    ),
                );
            },
        }
    }
    if config.load_timeout_secs == 0 {
        return Err(
            ConvertError::text(ErrorKind::Configuration, "plugin load timeout cannot be zero"),
        );
    }
    if config.enable_hot_reload && config.hot_reload_interval_secs == 0 {
        return Err(
            ConvertError::text(
                ErrorKind::Configuration,
                "hot reload interval cannot be zero when hot reload is enabled",
            ),
        );
    }
    Ok(())
}

/// Are the storage settings valid: positive sizes, the delay range
/// ordered, and a backoff multiplier strictly above one?
pub open spec fn storage_valid(config: &StorageConfig) -> bool {
    &&& config.read_buffer_size >= 1
    &&& config.write_buffer_size >= 1
    &&& config.max_concurrent_requests >= 1
    &&& config.retry.initial_delay_ms >= 1
    &&& config.retry.max_delay_ms >= config.retry.initial_delay_ms
    &&& config.retry.backoff_multiplier_hundredths > 100
}

/// Validate the storage settings.
pub fn validate_storage(config: &StorageConfig) -> (r: Result<(), ConvertError>)
    ensures
        r is Ok <==> storage_valid(config),
        r matches Err(e) ==> e.kind == ErrorKind::Configuration,
{
    if config.read_buffer_size == 0 {
        return Err(
            ConvertError::text(ErrorKind::Configuration, "read buffer size cannot be zero"),
        );
    }
    if config.write_buffer_size == 0 {
        return Err(
            ConvertError::text(ErrorKind::Configuration, "write buffer size cannot be zero"),
        );
    }
    if config.max_concurrent_requests == 0 {
        return Err(
            ConvertError::text(ErrorKind::Configuration, "max concurrent requests cannot be zero"),
        );
    }
    if config.retry.initial_delay_ms == 0 {
        return Err(
            ConvertError::text(ErrorKind::Configuration, "initial retry delay cannot be zero"),
        );
    }
    if config.retry.max_delay_ms < config.retry.initial_delay_ms {
        return Err(
            ConvertError::text(
                ErrorKind::Configuration,
                "max retry delay cannot be less than initial delay",
            ),
        );
    }
    if config.retry.backoff_multiplier_hundredths <= 100 {
        return Err(
            ConvertError::text(
                ErrorKind::Configuration,
                "backoff multiplier must be greater than one",
            ),
        );
    }
    Ok(())
}

/// Are the streaming settings valid: every bound at least one?
pub open spec fn streaming_valid(config: &StreamingConfig) -> bool {
    &&& config.max_buffer_memory >= 1
    &&& config.buffer_pool_size >= 1
    &&& config.read_timeout_secs >= 1
    &&& config.write_timeout_secs >= 1
    &&& config.max_in_flight_batches >= 1
}

/// Validate the streaming settings.
pub fn validate_streaming(config: &StreamingConfig) -> (r: Result<(), ConvertError>)
    ensures
        r is Ok <==> streaming_valid(config),
        r matches Err(e) ==> e.kind == ErrorKind::Configuration,
{
    if config.max_buffer_memory == 0 {
        return Err(
            ConvertError::text(ErrorKind::Configuration, "max buffer memory cannot be zero"),
        );
    }
    if config.buffer_pool_size == 0 {
        return Err(
            ConvertError::text(ErrorKind::Configuration, "buffer pool size cannot be zero"),
        );
    }
    if config.read_timeout_secs == 0 {
        return Err(ConvertError::text(ErrorKind::Configuration, "read timeout cannot be zero"));
    }
    if config.write_timeout_secs == 0 {
        return Err(ConvertError::text(ErrorKind::Configuration, "write timeout cannot be zero"));
    }
    if config.max_in_flight_batches == 0 {
        return Err(
            ConvertError::text(ErrorKind::Configuration, "max in-flight batches cannot be zero"),
        );
    }
    Ok(())
}

/// Are the processing settings valid?
pub open spec fn processing_valid(config: &ProcessingConfig) -> bool {
    &&& config.max_memory_bytes >= 1
    &&& config.parallel_threads >= 1
}

/// Validate the processing settings.
pub fn validate_processing(config: &ProcessingConfig) -> (r: Result<(), ConvertError>)
    ensures
        r is Ok <==> processing_valid(config),
        r matches Err(e) ==> e.kind == ErrorKind::Configuration,
{
    if config.max_memory_bytes == 0 {
        return Err(
            ConvertError::text(ErrorKind::Configuration, "max memory bytes cannot be zero"),
        );
    }
    if config.parallel_threads == 0 {
        return Err(
            ConvertError::text(ErrorKind::Configuration, "parallel threads cannot be zero"),
        );
    }
    Ok(())
}

/// Is the whole configuration valid?
pub open spec fn config_valid(config: &Config, dir_status: PluginDirStatus) -> bool {
    &&& formats_valid(&config.formats)
    &&& plugins_valid(&config.plugins, dir_status)
    &&& storage_valid(&config.storage)
    &&& streaming_valid(&config.streaming)
    &&& processing_valid(&config.processing)
}

/// Validate the whole configuration, first violation first.
pub fn validate_config(config: &Config, dir_status: PluginDirStatus) -> (r: Result<
    (),
    ConvertError,
>)
    ensures
        r is Ok <==> config_valid(config, dir_status),
        r matches Err(e) ==> e.kind == ErrorKind::Configuration,
{
    match validate_formats(&config.formats) {
        Ok(_) => {
        },
        Err(e) => {
            return Err(e);
        },
    }
    match validate_plugins(&config.plugins, dir_status) {
        Ok(_) => {
        },
        Err(e) => {
            return Err(e);
        },
    }
    match validate_storage(&config.storage) {
        Ok(_) => {
        },
        Err(e) => {
            return Err(e);
        },
    }
    match validate_streaming(&config.streaming) {
        Ok(_) => {
        },
        Err(e) => {
            return Err(e);
        },
    }
    match validate_processing(&config.processing) {
        Ok(_) => {
        },
        Err(e) => {
            return Err(e);
        },
    }
    Ok(())
}

} // verus!
