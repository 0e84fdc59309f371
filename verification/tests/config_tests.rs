//! Configuration, validation and buffer-pool behaviour.

use colflow::BufferPool;
use colflow::Config;
use colflow::PluginDirStatus;
use colflow::validate_config;

#[test]
fn test_valid_config() {
    let config = Config::default();
    assert!(validate_config(&config, PluginDirStatus::Missing).is_ok());
}

#[test]
fn test_invalid_batch_size() {
    let mut config = Config::default();
    config.formats.csv.batch_size = 0;
    assert!(validate_config(&config, PluginDirStatus::Missing).is_err());
}

#[test]
fn test_invalid_compression() {
    let mut config = Config::default();
    config.formats.parquet.compression = b"invalid".to_vec();
    assert!(validate_config(&config, PluginDirStatus::Missing).is_err());
}

#[test]
fn test_invalid_plugin_config() {
    let mut config = Config::default();
    config.plugins.enable_plugins = true;
    // Should fail without a plugin dir.
    assert!(validate_config(&config, PluginDirStatus::Missing).is_err());
}

#[test]
fn test_invalid_retry_config() {
    let mut config = Config::default();
    config.storage.retry.max_delay_ms = config.storage.retry.initial_delay_ms / 2;
    assert!(validate_config(&config, PluginDirStatus::Missing).is_err());
}

#[test]
fn validation_errors_are_configuration_errors() {
    let mut config = Config::default();
    config.streaming.buffer_pool_size = 0;
    let err = validate_config(&config, PluginDirStatus::Missing).unwrap_err();
    assert_eq!(err.kind(), colflow::ErrorKind::Configuration);
    assert_eq!(err.exit_code(), 3);
}

#[test]
fn plugin_dir_must_be_a_directory_when_enabled() {
    let mut config = Config::default();
    config.plugins.enable_plugins = true;
    config.plugins.plugin_dir = Some(b"/tmp/plugins".to_vec());
    assert!(validate_config(&config, PluginDirStatus::NotADirectory).is_err());
    assert!(validate_config(&config, PluginDirStatus::Directory).is_ok());
}

#[test]
fn default_config_matches_documented_values() {
    let config = Config::default();
    assert_eq!(config.formats.csv.batch_size, 1024);
    assert!(config.formats.csv.default_has_header);
    assert_eq!(config.formats.csv.schema_sample_size, 1000);
    assert_eq!(config.formats.csv.delimiter, b',');
    assert_eq!(config.formats.csv.quote, b'"');
    assert_eq!(config.formats.parquet.compression, b"snappy".to_vec());
    assert_eq!(config.storage.retry.max_retries, 3);
    assert_eq!(config.storage.retry.backoff_multiplier_hundredths, 200);
    assert!(config.processing.parallel_threads >= 1);
}

#[test]
fn format_settings_dispatch_on_name() {
    let config = Config::default();
    let csv = config.get_format_config(&b"csv".to_vec());
    assert_eq!(csv.batch_size, config.formats.csv.batch_size);
    assert_eq!(csv.sample_size, config.formats.csv.schema_sample_size);
    let parquet = config.get_format_config(&b"parquet".to_vec());
    assert_eq!(parquet.sample_size, config.formats.parquet.batch_size);
    let other = config.get_format_config(&b"unknown".to_vec());
    assert_eq!(other.batch_size, config.formats.default.batch_size);
}

#[test]
fn plugin_config_lookup_finds_stored_text() {
    let mut config = Config::default();
    config
        .plugins
        .plugin_configs
        .push((b"jsonish".to_vec(), b"level=3".to_vec()));
    assert_eq!(
        config.get_plugin_config(&b"jsonish".to_vec()),
        Some(b"level=3".to_vec())
    );
    assert_eq!(config.get_plugin_config(&b"absent".to_vec()), None);
}

#[test]
fn test_buffer_pool() {
    let mut config = Config::default();
    config.streaming.max_buffer_memory = 1024 * 1024;
    config.streaming.buffer_pool_size = 4;
    config.streaming.read_timeout_secs = 30;
    config.streaming.write_timeout_secs = 30;
    config.streaming.enable_backpressure = true;
    config.streaming.max_in_flight_batches = 2;

    let mut pool = BufferPool::new(&config.streaming);

    // Acquire every buffer.
    for _ in 0..4 {
        assert!(pool.try_acquire());
    }
    assert!(!pool.try_acquire());

    // Verify buffer size: 1MB / 4.
    assert_eq!(pool.buffer_size(), 262144);

    // Release and acquire again.
    pool.return_buffer();
    assert!(pool.try_acquire());
    assert_eq!(pool.max_memory(), 1024 * 1024);
}
