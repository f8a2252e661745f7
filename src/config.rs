use vstd::prelude::*;
use crate::error::{ErrorKind, SigniaError};

verus! {

/// Core settings: normalization, hashing and resource limits.
#[derive(Debug, Clone)]
pub struct CoreConfig {
    pub normalization: NormalizationConfig,
    pub hashing: HashingConfig,
    pub limits: LimitsConfig,
}

#[derive(Debug, Clone)]
pub struct NormalizationConfig {
    pub path_root: String,
    pub newline: NewlineMode,
    pub encoding: Encoding,
    pub symlink_policy: SymlinkPolicy,
    pub network_policy: NetworkPolicy,
}

#[derive(Debug, Clone)]
pub struct HashingConfig {
    pub algorithm: HashAlgorithm,
    pub domain: String,
}

#[derive(Debug, Clone)]
pub struct LimitsConfig {
    pub max_total_bytes: u64,
    pub max_file_bytes: u64,
    pub max_files: usize,
    pub max_depth: usize,
    pub max_nodes: usize,
    pub max_edges: usize,
    pub timeout_ms: u64,
}

#[derive(Debug, Clone, Copy, PartialEq, Eq, Structural)]
pub enum NewlineMode {
    Lf,
}

#[derive(Debug, Clone, Copy, PartialEq, Eq, Structural)]
pub enum Encoding {
    Utf8,
}

#[derive(Debug, Clone, Copy, PartialEq, Eq, Structural)]
pub enum SymlinkPolicy {
    Deny,
    ResolveWithinRoot,
}

#[derive(Debug, Clone, Copy, PartialEq, Eq, Structural)]
pub enum NetworkPolicy {
    Deny,
    AllowPinnedOnly,
}

#[derive(Debug, Clone, Copy, PartialEq, Eq, Structural)]
pub enum HashAlgorithm {
    Sha256,
    Blake3,
}

pub const DEFAULT_MAX_TOTAL_BYTES: u64 = 536870912;
pub const DEFAULT_MAX_FILE_BYTES: u64 = 67108864;

impl Default for NormalizationConfig {
    fn default() -> (r: Self)
        ensures
            r.path_root@ == "artifact:/"@,
            r.newline == NewlineMode::Lf,
            r.encoding == Encoding::Utf8,
            r.symlink_policy == SymlinkPolicy::Deny,
            r.network_policy == NetworkPolicy::Deny,
    {
        NormalizationConfig {
            path_root: String::from_str("artifact:/"),
            newline: NewlineMode::Lf,
            encoding: Encoding::Utf8,
            symlink_policy: SymlinkPolicy::Deny,
            network_policy: NetworkPolicy::Deny,
        }
    }
}

impl Default for HashingConfig {
    fn default() -> (r: Self)
        ensures
            r.algorithm == HashAlgorithm::Sha256,
            r.domain@ == "signia.v1"@,
    {
        HashingConfig { algorithm: HashAlgorithm::Sha256, domain: String::from_str("signia.v1") }
    }
}

impl Default for LimitsConfig {
    fn default() -> (r: Self)
        ensures
            r.max_total_bytes == DEFAULT_MAX_TOTAL_BYTES,
            r.max_file_bytes == DEFAULT_MAX_FILE_BYTES,
            r.max_files == 100000,
            r.max_depth == 128,
            r.max_nodes == 1000000,
            r.max_edges == 2000000,
            r.timeout_ms == 60000,
    {
        LimitsConfig {
            max_total_bytes: DEFAULT_MAX_TOTAL_BYTES,
            max_file_bytes: DEFAULT_MAX_FILE_BYTES,
            max_files: 100000,
            max_depth: 128,
            max_nodes: 1000000,
            max_edges: 2000000,
            timeout_ms: 60000,
        }
    }
}

impl Default for CoreConfig {
    fn default() -> (r: Self)
        ensures
            r.normalization.path_root@ == "artifact:/"@,
            r.hashing.algorithm == HashAlgorithm::Sha256,
            r.hashing.domain@ == "signia.v1"@,
            r.limits.max_total_bytes == DEFAULT_MAX_TOTAL_BYTES,
            r.limits.max_file_bytes == DEFAULT_MAX_FILE_BYTES,
            r.limits.max_nodes == 1000000,
            r.limits.max_edges == 2000000,
    {
        CoreConfig {
            normalization: NormalizationConfig::default(),
            hashing: HashingConfig::default(),
            limits: LimitsConfig::default(),
        }
    }
}

impl NewlineMode {
    pub fn as_str(&self) -> (r: &'static str)
        ensures
            r@ == "lf"@,
    {
        match self {
            NewlineMode::Lf => "lf",
        }
    }
}

impl Encoding {
    pub fn as_str(&self) -> (r: &'static str)
        ensures
            r@ == "utf-8"@,
    {
        match self {
            Encoding::Utf8 => "utf-8",
        }
    }
}

impl SymlinkPolicy {
    pub fn as_str(&self) -> (r: &'static str)
        ensures
            *self == SymlinkPolicy::Deny ==> r@ == "deny"@,
            *self == SymlinkPolicy::ResolveWithinRoot ==> r@ == "resolve-within-root"@,
    {
        match self {
            SymlinkPolicy::Deny => "deny",
            SymlinkPolicy::ResolveWithinRoot => "resolve-within-root",
        }
    }
}

impl NetworkPolicy {
    pub fn as_str(&self) -> (r: &'static str)
        ensures
            *self == NetworkPolicy::Deny ==> r@ == "deny"@,
            *self == NetworkPolicy::AllowPinnedOnly ==> r@ == "allow-pinned-only"@,
    {
        match self {
            NetworkPolicy::Deny => "deny",
            NetworkPolicy::AllowPinnedOnly => "allow-pinned-only",
        }
    }
}

impl HashAlgorithm {
    pub fn as_str(&self) -> (r: &'static str)
        ensures
            *self == HashAlgorithm::Sha256 ==> r@ == "sha256"@,
            *self == HashAlgorithm::Blake3 ==> r@ == "blake3"@,
    {
        match self {
            HashAlgorithm::Sha256 => "sha256",
            HashAlgorithm::Blake3 => "blake3",
        }
    }
}

/// A configuration is valid when the per-file byte cap does not exceed the
/// total cap, at least one node is allowed, and the hashing domain is set.
pub open spec fn config_valid(cfg: CoreConfig) -> bool {
    cfg.limits.max_file_bytes <= cfg.limits.max_total_bytes && cfg.limits.max_nodes > 0
        && cfg.hashing.domain@.len() > 0
}

/// Checks the configuration; each violated rule has its own message, tested in
/// the order file bytes, nodes, domain.
pub fn validate_config(cfg: &CoreConfig) -> (r: Result<(), SigniaError>)
    ensures
        r is Ok <==> config_valid(*cfg),
        r is Err ==> r->Err_0.kind == ErrorKind::InvalidArgument,
        r is Err && cfg.limits.max_file_bytes > cfg.limits.max_total_bytes ==> r->Err_0.message@
            == "max_file_bytes must not exceed max_total_bytes"@,
{
    if cfg.limits.max_file_bytes > cfg.limits.max_total_bytes {
        return Err(SigniaError::invalid_argument("max_file_bytes must not exceed max_total_bytes"));
    }
    if cfg.limits.max_nodes == 0 {
        return Err(SigniaError::invalid_argument("max_nodes must be greater than zero"));
    }
    if cfg.hashing.domain.as_str().unicode_len() == 0 {
        return Err(SigniaError::invalid_argument("hashing domain must not be empty"));
    }
    Ok(())
}

} // verus!
