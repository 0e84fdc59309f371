//! Storage locations, backend selection, format selection, registry
//! precedence and plugin admission.

use colflow::CodecFactory;
use colflow::Config;
use colflow::CredentialEnv;
use colflow::ErrorKind;
use colflow::FormatChoice;
use colflow::FormatRegistry;
use colflow::LocalStorage;
use colflow::PluginManager;
use colflow::PluginMetadata;
use colflow::SelectedFormat;
use colflow::StorageSpec;
use colflow::Version;
use colflow::VersionCompatibility;
use colflow::choose_format;
use colflow::extension_of;
use colflow::from_url;
use colflow::next_delay;
use colflow::parse_format_choice;
use colflow::should_retry;

fn empty_env() -> CredentialEnv {
    CredentialEnv {
        aws_access_key_id: None,
        aws_secret_access_key: None,
        aws_region: None,
        azure_storage_account: None,
        azure_storage_access_key: None,
    }
}

#[test]
fn test_url_parsing() {
    // Unsupported scheme.
    let result = from_url(&b"invalid://test".to_vec(), &empty_env());
    assert!(result.is_err());

    // Missing bucket/container.
    let result = from_url(&b"s3:///path".to_vec(), &empty_env());
    assert!(result.is_err());
    let result = from_url(&b"azure:///path".to_vec(), &empty_env());
    assert!(result.is_err());

    // Valid local URL.
    let result = from_url(&b"file:///tmp/test".to_vec(), &empty_env());
    assert!(result.is_ok());

    // Remote URLs fail without credentials.
    let result = from_url(&b"s3://bucket/path".to_vec(), &empty_env());
    assert!(result.is_err());
    let result = from_url(&b"azure://container/path".to_vec(), &empty_env());
    assert!(result.is_err());
}

#[test]
fn missing_credentials_are_a_credential_error() {
    let err = from_url(&b"s3://bucket/k.parquet".to_vec(), &empty_env()).unwrap_err();
    assert_eq!(err.kind(), ErrorKind::Credential);
    assert_eq!(err.exit_code(), 3);
}

#[test]
fn complete_credentials_select_the_remote_backend() {
    let env = CredentialEnv {
        aws_access_key_id: Some(b"SECRET-REDACTED".to_vec()),
        aws_secret_access_key: Some(b"SECRET-REDACTED".to_vec()),
        aws_region: None,
        azure_storage_account: None,
        azure_storage_access_key: None,
    };
    let (spec, path) = from_url(&b"s3://bucket/k.parquet".to_vec(), &env).expect("backend");
    match spec {
        StorageSpec::S3(s) => {
            assert_eq!(s.bucket, b"bucket".to_vec());
            assert_eq!(s.region, b"us-east-1".to_vec());
        }
        _ => panic!("expected the S3-like backend"),
    }
    assert_eq!(path, b"k.parquet".to_vec());
}

#[test]
fn local_paths_stay_under_the_base() {
    let storage = LocalStorage::new(b"/data/base".to_vec());
    let resolved = storage.get_object_path(&b"nested/file.txt".to_vec()).expect("resolve");
    assert_eq!(resolved, b"/data/base/nested/file.txt".to_vec());
    let err = storage.get_object_path(&b"../outside.txt".to_vec()).unwrap_err();
    assert_eq!(err.kind(), ErrorKind::Argument);
}

#[test]
fn url_path_with_dotdot_is_rejected() {
    let err = from_url(&b"file:///tmp/../etc/passwd".to_vec(), &empty_env()).unwrap_err();
    assert_eq!(err.kind(), ErrorKind::Argument);
}

#[test]
fn retry_policy_backs_off_and_caps() {
    let config = Config::default();
    let retry = config.storage.retry;
    assert_eq!(next_delay(&retry, 0), 100);
    assert_eq!(next_delay(&retry, 1), 200);
    assert_eq!(next_delay(&retry, 2), 400);
    assert_eq!(next_delay(&retry, 10), 5000);
    assert!(should_retry(ErrorKind::Io, 0, &retry));
    assert!(!should_retry(ErrorKind::Io, 3, &retry));
    assert!(!should_retry(ErrorKind::NotFound, 0, &retry));
    assert!(!should_retry(ErrorKind::Credential, 0, &retry));
}

#[test]
fn extension_and_format_selection() {
    assert_eq!(extension_of(&b"/tmp/in.csv".to_vec()), Some(b"csv".to_vec()));
    assert_eq!(
        extension_of(&b"/tmp/out.parquet".to_vec()),
        Some(b"parquet".to_vec())
    );
    assert_eq!(extension_of(&b"/tmp/noext".to_vec()), None);

    assert_eq!(parse_format_choice(&b"auto".to_vec()), Some(FormatChoice::Auto));
    assert_eq!(parse_format_choice(&b"csv".to_vec()), Some(FormatChoice::Csv));
    assert_eq!(
        parse_format_choice(&b"parquet".to_vec()),
        Some(FormatChoice::Parquet)
    );
    assert_eq!(parse_format_choice(&b"yaml".to_vec()), None);

    let chosen = choose_format(FormatChoice::Auto, &Some(b"csv".to_vec())).expect("auto csv");
    assert_eq!(chosen, SelectedFormat::Csv);
    let chosen = choose_format(FormatChoice::Parquet, &None).expect("explicit");
    assert_eq!(chosen, SelectedFormat::Parquet);
    let err = choose_format(FormatChoice::Auto, &Some(b"bin".to_vec())).unwrap_err();
    assert_eq!(err.kind(), ErrorKind::Argument);
    assert_eq!(err.exit_code(), 2);
}

#[test]
fn registry_resolves_builtins() {
    let config = Config::default();
    let registry = FormatRegistry::new(config.formats.csv.clone(), config.formats.parquet.clone());
    match registry.get_format_for_extension(&b"csv".to_vec()) {
        Some(CodecFactory::BuiltinCsv(_)) => {}
        _ => panic!("expected the built-in delimited text codec"),
    }
    match registry.get_format_for_extension(&b"parquet".to_vec()) {
        Some(CodecFactory::BuiltinParquet(_)) => {}
        _ => panic!("expected the built-in columnar codec"),
    }
    assert!(registry.get_format_for_extension(&b"yaml".to_vec()).is_none());
}

#[test]
fn plugin_overrides_builtin_binding() {
    let config = Config::default();
    let mut registry =
        FormatRegistry::new(config.formats.csv.clone(), config.formats.parquet.clone());
    registry.register_format(b"csv".to_vec(), CodecFactory::Plugin(0));
    match registry.get_format_for_extension(&b"csv".to_vec()) {
        Some(CodecFactory::Plugin(0)) => {}
        _ => panic!("expected the plugin to win the binding"),
    }
    // Other bindings are untouched.
    match registry.get_format_for_extension(&b"parquet".to_vec()) {
        Some(CodecFactory::BuiltinParquet(_)) => {}
        _ => panic!("expected the built-in columnar codec"),
    }
    // A fresh registry resolves the built-in again.
    let fresh = FormatRegistry::new(config.formats.csv.clone(), config.formats.parquet.clone());
    match fresh.get_format_for_extension(&b"csv".to_vec()) {
        Some(CodecFactory::BuiltinCsv(_)) => {}
        _ => panic!("expected the built-in delimited text codec"),
    }
}

#[test]
fn later_registration_wins() {
    let config = Config::default();
    let mut registry =
        FormatRegistry::new(config.formats.csv.clone(), config.formats.parquet.clone());
    registry.register_format(b"jsonish".to_vec(), CodecFactory::Plugin(1));
    registry.register_format(b"jsonish".to_vec(), CodecFactory::Plugin(2));
    match registry.get_format_for_extension(&b"jsonish".to_vec()) {
        Some(CodecFactory::Plugin(2)) => {}
        _ => panic!("expected the later registration to win"),
    }
}

#[test]
fn plugin_admission_follows_compatibility_policy() {
    let host = Version { major: 1, minor: 4, patch: 2 };
    let mut manager = PluginManager::new(b"/plugins".to_vec(), host, VersionCompatibility::Major);
    let fits = PluginMetadata {
        name: b"jsonish".to_vec(),
        version: Version { major: 1, minor: 0, patch: 0 },
        extensions: vec![b"jsonl".to_vec()],
        description: b"line-delimited records".to_vec(),
    };
    let breaks = PluginMetadata {
        name: b"older".to_vec(),
        version: Version { major: 0, minor: 9, patch: 9 },
        extensions: vec![b"old".to_vec()],
        description: b"older records".to_vec(),
    };
    assert!(manager.admit_plugin(fits));
    assert!(!manager.admit_plugin(breaks));
    assert_eq!(manager.list_plugins(), 1);
    assert_eq!(manager.get_plugin(&b"jsonish".to_vec()), Some(0));
    assert_eq!(manager.get_plugin(&b"older".to_vec()), None);
    assert_eq!(manager.get_plugin_for_extension(&b"jsonl".to_vec()), Some(0));
    assert_eq!(manager.get_plugin_for_extension(&b"old".to_vec()), None);
}

#[test]
fn exact_compatibility_requires_the_full_triple() {
    let host = Version { major: 2, minor: 1, patch: 3 };
    let mut manager = PluginManager::new(b"/plugins".to_vec(), host, VersionCompatibility::Exact);
    let near = PluginMetadata {
        name: b"near".to_vec(),
        version: Version { major: 2, minor: 1, patch: 4 },
        extensions: vec![],
        description: vec![],
    };
    assert!(!manager.admit_plugin(near));
    let exact = PluginMetadata {
        name: b"exact".to_vec(),
        version: Version { major: 2, minor: 1, patch: 3 },
        extensions: vec![],
        description: vec![],
    };
    assert!(manager.admit_plugin(exact));
}

#[test]
fn integer_text_round_trips_at_the_extremes() {
    let schema = colflow::Schema::new(vec![colflow::Field::new(
        b"n".to_vec(),
        colflow::DataType::Int64,
        true,
    )]);
    let batch = colflow::RecordBatch::new(
        schema,
        3,
        vec![colflow::ColumnData::Int64(vec![
            Some(i64::MIN),
            Some(0),
            Some(i64::MAX),
        ])],
    )
    .expect("batch");
    let codec = colflow::CsvFormat::new(true, 8);
    let text = codec.write_batches(&vec![batch]).expect("encode");
    assert_eq!(
        String::from_utf8(text.clone()).unwrap(),
        "n\n-9223372036854775808\n0\n9223372036854775807\n"
    );
    let reread = colflow::CsvFormat::with_schema(
        colflow::Schema::new(vec![colflow::Field::new(
            b"n".to_vec(),
            colflow::DataType::Int64,
            true,
        )]),
        true,
        8,
    );
    let batches = reread.read_batches(&text).expect("decode");
    match &batches[0].columns[0] {
        colflow::ColumnData::Int64(v) => {
            assert_eq!(v, &vec![Some(i64::MIN), Some(0), Some(i64::MAX)]);
        }
        _ => panic!("expected an int column"),
    }
}
