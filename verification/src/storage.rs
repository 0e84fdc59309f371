//! Storage locations and backend selection: URL parsing, path
//! normalization and confinement, credential checks, and the retry
//! policy for remote operations.
//!
//! The object-store clients themselves live at the boundary; the core
//! decides which backend a URL selects, which credentials it needs,
//! and how retries back off.

use vstd::prelude::*;

use crate::bytesutil::bytes_eq;
use crate::bytesutil::clone_bytes;
use crate::config::RetryConfig;
use crate::error::ConvertError;
use crate::error::ErrorKind;

verus! {

/// The supported URL schemes.
#[derive(Clone, Copy, Debug, PartialEq, Eq, Structural)]
pub enum SchemeKind {
    File,
    S3,
    Azure,
}

/// The text of a scheme.
pub open spec fn scheme_text(k: SchemeKind) -> Seq<u8> {
    match k {
        SchemeKind::File => seq![102u8, 105u8, 108u8, 101u8],
        SchemeKind::S3 => seq![115u8, 51u8],
        SchemeKind::Azure => seq![97u8, 122u8, 117u8, 114u8, 101u8],
    }
}

/// A parsed storage location: scheme, host (bucket or container for
/// remote schemes), and the path with leading separators stripped.
#[derive(Debug)]
pub struct StorageLocation {
    pub scheme: SchemeKind,
    pub host: Vec<u8>,
    pub path: Vec<u8>,
}

/// Does the path contain a `..` segment?
pub open spec fn has_dotdot_segment(p: Seq<u8>) -> bool {
    exists|i: int|
        0 <= i && i + 2 <= p.len() && (#[trigger] p[i]) == 46 && p[i + 1] == 46 && (i == 0 || p[i
            - 1] == 47) && (i + 2 == p.len() || p[i + 2] == 47)
}

/// Decide whether a path contains a `..` segment.
pub fn path_has_dotdot(p: &Vec<u8>) -> (r: bool)
    ensures
        r == has_dotdot_segment(p@),
{
    let n: usize = p.len();
    for i in 0..n
        invariant
            n == p@.len(),
            forall|j: int|
                0 <= j < i ==> !(j + 2 <= p@.len() && (#[trigger] p@[j]) == 46 && p@[j + 1] == 46
                    && (j == 0 || p@[j - 1] == 47) && (j + 2 == p@.len() || p@[j + 2] == 47)),
    {
        if n - i >= 2 && p[i] == 46 && p[i + 1] == 46 && (i == 0 || p[i - 1] == 47) && (n - i == 2
            || p[i + 2] == 47) {
            return true;
        }
    }
    false
}

/// The first position of a `://` separator, or the length when the
/// text holds none at or after `i`.
pub open spec fn sep_pos(url: Seq<u8>, i: int) -> int
    decreases url.len() - i,
{
    if i < 0 || i + 2 >= url.len() {
        url.len() as int
    } else if url[i] == 58 && url[i + 1] == 47 && url[i + 2] == 47 {
        i
    } else {
        sep_pos(url, i + 1)
    }
}

/// The first separator position at or after `i`, or the length.
pub open spec fn scan_slash(url: Seq<u8>, i: int) -> int
    decreases url.len() - i,
{
    if i < 0 || i >= url.len() {
        i
    } else if url[i] == 47 {
        i
    } else {
        scan_slash(url, i + 1)
    }
}

/// The first non-separator position at or after `i`, or the length.
pub open spec fn skip_slashes(url: Seq<u8>, i: int) -> int
    decreases url.len() - i,
{
    if i < 0 || i >= url.len() {
        i
    } else if url[i] == 47 {
        skip_slashes(url, i + 1)
    } else {
        i
    }
}

/// The scheme a name denotes, if any.
pub open spec fn scheme_of(s: Seq<u8>) -> Option<SchemeKind> {
    if s == scheme_text(SchemeKind::File) {
        Some(SchemeKind::File)
    } else if s == scheme_text(SchemeKind::S3) {
        Some(SchemeKind::S3)
    } else if s == scheme_text(SchemeKind::Azure) {
        Some(SchemeKind::Azure)
    } else {
        None
    }
}

/// What a storage URL denotes: its scheme, its host (the text between
/// `://` and the next separator), and its path with leading separators
/// stripped. Nothing, exactly when the URL has no `://`, an unknown
/// scheme, an empty host under a remote scheme, or a path with a `..`
/// segment.
pub open spec fn url_parts(url: Seq<u8>) -> Option<(SchemeKind, Seq<u8>, Seq<u8>)> {
    let sep = sep_pos(url, 0);
    if sep == url.len() {
        None
    } else {
        match scheme_of(url.take(sep)) {
            None => None,
            Some(k) => {
                let he = scan_slash(url, sep + 3);
                let host = url.subrange(sep + 3, he);
                if (k == SchemeKind::S3 || k == SchemeKind::Azure) && host.len() == 0 {
                    None
                } else {
                    let path = url.subrange(skip_slashes(url, he), url.len() as int);
                    if has_dotdot_segment(path) {
                        None
                    } else {
                        Some((k, host, path))
                    }
                }
            },
        }
    }
}

/// Parse a storage URL: `scheme://host/path`. The scheme must be one
/// of `file`, `s3` or `azure`; the remote schemes require a non-empty
/// host; the path is normalized by stripping leading separators and
/// must not contain `..` segments. The result is exactly what the URL
/// denotes, and every rejection is an argument error.
pub fn parse_storage_url(url: &Vec<u8>) -> (r: Result<StorageLocation, ConvertError>)
    ensures
        r is Ok <==> url_parts(url@) is Some,
        match r {
            Ok(loc) => {
                &&& url_parts(url@) == Some((loc.scheme, loc.host@, loc.path@))
                &&& (loc.scheme != SchemeKind::File ==> loc.host@.len() > 0)
                &&& !has_dotdot_segment(loc.path@)
            },
            Err(e) => e.kind == ErrorKind::Argument && url_parts(url@) is None,
        },
{
    let n: usize = url.len();
    // Find the "://" separator.
    let mut sep: usize = 0;
    let mut found: bool = false;
    while !found && n - sep > 2 && sep < n
        invariant
            sep <= n,
            n == url@.len(),
            !found ==> sep_pos(url@, 0) == sep_pos(url@, sep as int),
            found ==> sep + 2 < n && sep_pos(url@, 0) == sep,
            found ==> url@[sep as int] == 58 && url@[sep as int + 1] == 47 && url@[sep as int + 2]
                == 47,
        decreases n - sep + (if found {
            0int
        } else {
            1int
        }),
    {
        if url[sep] == 58 && url[sep + 1] == 47 && url[sep + 2] == 47 {
            found = true;
        } else {
            sep = sep + 1;
        }
    }
    if !found {
        proof {
            assert(sep_pos(url@, sep as int) == n);
            assert(url_parts(url@) is None);
        }
        return Err(ConvertError::text(ErrorKind::Argument, "URL has no scheme separator"));
    }
    // The scheme.
    let mut scheme_bytes: Vec<u8> = Vec::new();
    for i in 0..sep
        invariant
            sep < n,
            n == url@.len(),
            scheme_bytes@ == url@.take(i as int),
    {
        scheme_bytes.push(url[i]);
        proof {
            assert(scheme_bytes@ =~= url@.take(i as int + 1));
        }
    }
    let file_lit: Vec<u8> = vec![102, 105, 108, 101];
    let s3_lit: Vec<u8> = vec![115, 51];
    let azure_lit: Vec<u8> = vec![97, 122, 117, 114, 101];
    proof {
        assert(file_lit@ =~= scheme_text(SchemeKind::File));
        assert(s3_lit@ =~= scheme_text(SchemeKind::S3));
        assert(azure_lit@ =~= scheme_text(SchemeKind::Azure));
    }
    let scheme: SchemeKind = if bytes_eq(&scheme_bytes, &file_lit) {
        SchemeKind::File
    } else if bytes_eq(&scheme_bytes, &s3_lit) {
        SchemeKind::S3
    } else if bytes_eq(&scheme_bytes, &azure_lit) {
        SchemeKind::Azure
    } else {
        proof {
            assert(scheme_of(url@.take(sep as int)) is None);
            assert(url_parts(url@) is None);
        }
        return Err(ConvertError::text(ErrorKind::Argument, "unsupported URL scheme"));
    };
    proof {
        assert(scheme_of(url@.take(sep as int)) == Some(scheme));
    }
    // The host: everything up to the first separator after "://".
    let rest_start: usize = sep + 3;
    let mut host_end: usize = rest_start;
    while host_end < n && url[host_end] != 47
        invariant
            rest_start <= host_end <= n,
            n == url@.len(),
            scan_slash(url@, rest_start as int) == scan_slash(url@, host_end as int),
        decreases n - host_end,
    {
        host_end = host_end + 1;
    }
    proof {
        assert(scan_slash(url@, rest_start as int) == host_end);
    }
    let mut host: Vec<u8> = Vec::new();
    for i in rest_start..host_end
        invariant
            rest_start <= host_end <= n,
            n == url@.len(),
            host@ == url@.subrange(rest_start as int, i as int),
    {
        host.push(url[i]);
        proof {
            assert(host@ =~= url@.subrange(rest_start as int, i as int + 1));
        }
    }
    if host.len() == 0 && (scheme == SchemeKind::S3 || scheme == SchemeKind::Azure) {
        proof {
            assert(host@ =~= url@.subrange(rest_start as int, host_end as int));
            assert(url_parts(url@) is None);
        }
        return Err(ConvertError::text(ErrorKind::Argument, "remote URL has no bucket or container"));
    }
    // The raw path, with leading separators stripped.
    let mut path_start: usize = host_end;
    while path_start < n && url[path_start] == 47
        invariant
            host_end <= path_start <= n,
            n == url@.len(),
            skip_slashes(url@, host_end as int) == skip_slashes(url@, path_start as int),
        decreases n - path_start,
    {
        path_start = path_start + 1;
    }
    proof {
        assert(skip_slashes(url@, host_end as int) == path_start);
    }
    let mut path: Vec<u8> = Vec::new();
    for i in path_start..n
        invariant
            path_start <= n,
            n == url@.len(),
            path@ == url@.subrange(path_start as int, i as int),
    {
        path.push(url[i]);
        proof {
            assert(path@ =~= url@.subrange(path_start as int, i as int + 1));
        }
    }
    proof {
        assert(path@ =~= url@.subrange(path_start as int, n as int));
    }
    if path_has_dotdot(&path) {
        proof {
            assert(url_parts(url@) is None);
        }
        return Err(ConvertError::text(ErrorKind::Argument, "path escapes its base directory"));
    }
    let loc = StorageLocation { scheme, host, path };
    proof {
        assert(loc.host@ =~= url@.subrange(rest_start as int, host_end as int));
        assert(url_parts(url@) == Some((loc.scheme, loc.host@, loc.path@)));
    }
    Ok(loc)
}


/// The environment credentials a backend may need.
#[derive(Debug)]
pub struct CredentialEnv {
    pub aws_access_key_id: Option<Vec<u8>>,
    pub aws_secret_access_key: Option<Vec<u8>>,
    pub aws_region: Option<Vec<u8>>,
    pub azure_storage_account: Option<Vec<u8>>,
    pub azure_storage_access_key: Option<Vec<u8>>,
}

/// The local backend: reads and writes confined to a base directory.
#[derive(Debug)]
pub struct LocalStorage {
    pub base: Vec<u8>,
}

/// The S3-like backend settings.
#[derive(Debug)]
pub struct S3Storage {
    pub bucket: Vec<u8>,
    pub region: Vec<u8>,
    pub access_key_id: Vec<u8>,
    pub secret_access_key: Vec<u8>,
}

/// The Azure-like backend settings.
#[derive(Debug)]
pub struct AzureStorage {
    pub container: Vec<u8>,
    pub account: Vec<u8>,
    pub access_key: Vec<u8>,
}

/// The backend a URL selects, with everything needed to build its
/// client at the boundary.
#[derive(Debug)]
pub enum StorageSpec {
    Local(LocalStorage),
    S3(S3Storage),
    Azure(AzureStorage),
}

impl LocalStorage {
    /// A local backend over a base directory.
    pub fn new(base: Vec<u8>) -> (r: LocalStorage)
        ensures
            r.base@ == base@,
    {
        LocalStorage { base }
    }

    /// Resolve an object path under the base directory. The path must
    /// not escape the base through `..` segments; leading separators
    /// are treated as relative to the base.
    pub fn get_object_path(&self, path: &Vec<u8>) -> (r: Result<Vec<u8>, ConvertError>)
        ensures
            match r {
                Ok(p) => !has_dotdot_segment(path@) && p@ == self.base@ + seq![47u8] + path@,
                Err(e) => e.kind == ErrorKind::Argument && has_dotdot_segment(path@),
            },
    {
        if path_has_dotdot(path) {
            return Err(
                ConvertError::text(ErrorKind::Argument, "path escapes its base directory"),
            );
        }
        let mut out = clone_bytes(&self.base);
        out.push(47);
        let mut rest = clone_bytes(path);
        out.append(&mut rest);
        proof {
            assert(out@ =~= self.base@ + seq![47u8] + path@);
        }
        Ok(out)
    }
}

impl S3Storage {
    /// Build the S3-like backend settings from the bucket and the
    /// environment. Fails with a credential error exactly when the
    /// access key or the secret key is missing; the region defaults.
    pub fn new(bucket: Vec<u8>, env: &CredentialEnv) -> (r: Result<S3Storage, ConvertError>)
        ensures
            match r {
                Ok(s) => {
                    &&& env.aws_access_key_id is Some
                    &&& env.aws_secret_access_key is Some
                    &&& s.bucket@ == bucket@
                    &&& s.access_key_id@ == env.aws_access_key_id->0@
                    &&& s.secret_access_key@ == env.aws_secret_access_key->0@
                    &&& (env.aws_region matches Some(reg) ==> s.region@ == reg@)
                },
                Err(e) => {
                    &&& e.kind == ErrorKind::Credential
                    &&& (env.aws_access_key_id is None || env.aws_secret_access_key is None)
                },
            },
    {
        let access_key_id = match &env.aws_access_key_id {
            Some(k) => clone_bytes(k),
            None => {
                return Err(
                    ConvertError::text(ErrorKind::Credential, "AWS access key id is not set"),
                );
            },
        };
        let secret_access_key = match &env.aws_secret_access_key {
            Some(k) => clone_bytes(k),
            None => {
                return Err(
                    ConvertError::text(ErrorKind::Credential, "AWS secret access key is not set"),
                );
            },
        };
        let region = match &env.aws_region {
            Some(rg) => clone_bytes(rg),
            None => {
                // us-east-1
                vec![117, 115, 45, 101, 97, 115, 116, 45, 49]
            },
        };
        Ok(S3Storage { bucket, region, access_key_id, secret_access_key })
    }
}

impl AzureStorage {
    /// Build the Azure-like backend settings from the container and
    /// the environment. Fails with a credential error exactly when the
    /// account or the access key is missing.
    pub fn new(container: Vec<u8>, env: &CredentialEnv) -> (r: Result<AzureStorage, ConvertError>)
        ensures
            match r {
                Ok(s) => {
                    &&& env.azure_storage_account is Some
                    &&& env.azure_storage_access_key is Some
                    &&& s.container@ == container@
                    &&& s.account@ == env.azure_storage_account->0@
                    &&& s.access_key@ == env.azure_storage_access_key->0@
                },
                Err(e) => {
                    &&& e.kind == ErrorKind::Credential
                    &&& (env.azure_storage_account is None || env.azure_storage_access_key
                        is None)
                },
            },
    {
        let account = match &env.azure_storage_account {
            Some(a) => clone_bytes(a),
            None => {
                return Err(
                    ConvertError::text(ErrorKind::Credential, "Azure storage account is not set"),
                );
            },
        };
        let access_key = match &env.azure_storage_access_key {
            Some(k) => clone_bytes(k),
            None => {
                return Err(
                    ConvertError::text(
                        ErrorKind::Credential,
                        "Azure storage access key is not set",
                    ),
                );
            },
        };
        Ok(AzureStorage { container, account, access_key })
    }
}

/// Select and configure the backend a URL names: the scheme picks the
/// backend kind, the host becomes its base, bucket or container, and
/// the normalized path is handed back. Malformed URLs are argument
/// errors; missing remote credentials are credential errors, and the
/// call succeeds exactly when the URL parses and the credentials its
/// scheme needs are present.
pub fn from_url(url: &Vec<u8>, env: &CredentialEnv) -> (r: Result<
    (StorageSpec, Vec<u8>),
    ConvertError,
>)
    ensures
        r is Ok <==> (url_parts(url@) matches Some(p) && match p.0 {
            SchemeKind::File => true,
            SchemeKind::S3 => env.aws_access_key_id is Some
                && env.aws_secret_access_key is Some,
            SchemeKind::Azure => env.azure_storage_account is Some
                && env.azure_storage_access_key is Some,
        }),
        match r {
            Ok(pair) => {
                &&& url_parts(url@) is Some
                &&& {
                    let p = url_parts(url@)->0;
                    &&& pair.1@ == p.2
                    &&& match pair.0 {
                        StorageSpec::Local(l) => p.0 == SchemeKind::File && l.base@ == p.1,
                        StorageSpec::S3(s) => {
                            &&& p.0 == SchemeKind::S3
                            &&& s.bucket@ == p.1
                            &&& s.access_key_id@ == env.aws_access_key_id->0@
                            &&& s.secret_access_key@ == env.aws_secret_access_key->0@
                            &&& (env.aws_region matches Some(reg) ==> s.region@ == reg@)
                        },
                        StorageSpec::Azure(a) => {
                            &&& p.0 == SchemeKind::Azure
                            &&& a.container@ == p.1
                            &&& a.account@ == env.azure_storage_account->0@
                            &&& a.access_key@ == env.azure_storage_access_key->0@
                        },
                    }
                }
                &&& !has_dotdot_segment(pair.1@)
            },
            Err(e) => {
                ||| (e.kind == ErrorKind::Argument && url_parts(url@) is None)
                ||| (e.kind == ErrorKind::Credential && (url_parts(url@) matches Some(p) && (
                    (p.0 == SchemeKind::S3 && (env.aws_access_key_id is None
                        || env.aws_secret_access_key is None)) || (p.0 == SchemeKind::Azure && (
                    env.azure_storage_account is None || env.azure_storage_access_key is None)))))
            },
        },
{
    let loc = match parse_storage_url(url) {
        Ok(l) => l,
        Err(e) => {
            return Err(e);
        },
    };
    let StorageLocation { scheme, host, path } = loc;
    match scheme {
        SchemeKind::File => Ok((StorageSpec::Local(LocalStorage::new(host)), path)),
        SchemeKind::S3 => match S3Storage::new(host, env) {
            Ok(s) => Ok((StorageSpec::S3(s), path)),
            Err(e) => Err(e),
        },
        SchemeKind::Azure => match AzureStorage::new(host, env) {
            Ok(a) => Ok((StorageSpec::Azure(a), path)),
            Err(e) => Err(e),
        },
    }
}

/// The delay before retry `attempt`, growing by the configured
/// multiplier (held in hundredths) and clipped to the maximum delay.
pub open spec fn backoff_delay(cfg: RetryConfig, attempt: int) -> int
    decreases attempt,
{
    if attempt <= 0 {
        if cfg.initial_delay_ms <= cfg.max_delay_ms {
            cfg.initial_delay_ms as int
        } else {
            cfg.max_delay_ms as int
        }
    } else {
        let prev = backoff_delay(cfg, attempt - 1);
        let grown = prev * cfg.backoff_multiplier_hundredths / 100;
        if grown <= cfg.max_delay_ms {
            grown
        } else {
            cfg.max_delay_ms as int
        }
    }
}

/// Compute the delay before a retry.
pub fn next_delay(cfg: &RetryConfig, attempt: u32) -> (r: u64)
    ensures
        r == backoff_delay(*cfg, attempt as int),
        r <= cfg.max_delay_ms || r == backoff_delay(*cfg, 0),
{
    let mut i: u32 = 0;
    let mut delay: u64 = if cfg.initial_delay_ms <= cfg.max_delay_ms {
        cfg.initial_delay_ms
    } else {
        cfg.max_delay_ms
    };
    while i < attempt
        invariant
            i <= attempt,
            delay == backoff_delay(*cfg, i as int),
            delay <= cfg.max_delay_ms || delay == backoff_delay(*cfg, 0),
        decreases attempt - i,
    {
        proof {
            assert((delay as int) * (cfg.backoff_multiplier_hundredths as int) < 0x100000000000000000000000000000000)
                by (nonlinear_arith)
                requires
                    delay <= 0xffffffffffffffffu64,
                    cfg.backoff_multiplier_hundredths <= 0xffffffffffffffffu64,
            ;
        }
        let grown_wide: u128 = (delay as u128) * (cfg.backoff_multiplier_hundredths as u128) / 100;
        let grown: u64 = if grown_wide > cfg.max_delay_ms as u128 {
            cfg.max_delay_ms
        } else {
            grown_wide as u64
        };
        proof {
            assert(grown == backoff_delay(*cfg, i as int + 1));
        }
        delay = grown;
        i = i + 1;
    }
    delay
}

/// Retries apply to transient I/O failures only, and only while the
/// attempt count is below the configured maximum; not-found and
/// credential failures are never retried.
pub fn should_retry(kind: ErrorKind, attempt: u32, cfg: &RetryConfig) -> (r: bool)
    ensures
        r <==> kind == ErrorKind::Io && attempt < cfg.max_retries,
{
    match kind {
        ErrorKind::Io => attempt < cfg.max_retries,
        _ => false,
    }
}

} // verus!
