use vstd::prelude::*;

verus! {

/// Settings of the built-in plugins.
#[derive(Debug, Clone)]
pub struct BuiltinConfig {
    pub repo: RepoConfig,
    pub dataset: DatasetConfig,
    pub workflow: WorkflowConfig,
    pub api: ApiConfig,
}

#[derive(Debug, Clone)]
pub struct RepoConfig {
    pub max_files: usize,
    pub max_total_bytes: u64,
    pub max_file_bytes: u64,
    pub includes: Vec<String>,
    pub excludes: Vec<String>,
    pub allow_binary: bool,
}

#[derive(Debug, Clone)]
pub struct DatasetConfig {
    pub max_files: usize,
    pub max_total_bytes: u64,
    pub enable_merkle: bool,
}

#[derive(Debug, Clone)]
pub struct WorkflowConfig {
    pub max_nodes: usize,
    pub max_edges: usize,
    pub enable_yaml: bool,
}

#[derive(Debug, Clone)]
pub struct ApiConfig {
    pub enabled: bool,
    pub version: String,
}

impl RepoConfig {
    pub fn default_max_files() -> (r: usize)
        ensures
            r == 50000,
    {
        50000
    }

    pub fn default_max_total_bytes() -> (r: u64)
        ensures
            r == 268435456,
    {
        268435456
    }

    pub fn default_max_file_bytes() -> (r: u64)
        ensures
            r == 8388608,
    {
        8388608
    }
}

impl Default for RepoConfig {
    /// Excludes version-control, dependency and build directories.
    fn default() -> (r: Self)
        ensures
            r.max_files == 50000,
            r.max_total_bytes == 268435456,
            r.max_file_bytes == 8388608,
            r.includes@.len() == 0,
            r.excludes@.len() == 5,
            r.excludes@[0]@ == ".git/**"@,
            r.excludes@[1]@ == "node_modules/**"@,
            r.excludes@[2]@ == "target/**"@,
            r.excludes@[3]@ == "dist/**"@,
            r.excludes@[4]@ == "build/**"@,
            !r.allow_binary,
    {
        RepoConfig {
            max_files: RepoConfig::default_max_files(),
            max_total_bytes: RepoConfig::default_max_total_bytes(),
            max_file_bytes: RepoConfig::default_max_file_bytes(),
            includes: Vec::new(),
            excludes: vec![
                String::from_str(".git/**"),
                String::from_str("node_modules/**"),
                String::from_str("target/**"),
                String::from_str("dist/**"),
                String::from_str("build/**"),
            ],
            allow_binary: false,
        }
    }
}

impl DatasetConfig {
    pub fn default_max_files() -> (r: usize)
        ensures
            r == 100000,
    {
        100000
    }

    pub fn default_max_total_bytes() -> (r: u64)
        ensures
            r == 536870912,
    {
        536870912
    }
}

impl Default for DatasetConfig {
    fn default() -> (r: Self)
        ensures
            r.max_files == 100000,
            r.max_total_bytes == 536870912,
            r.enable_merkle,
    {
        DatasetConfig {
            max_files: DatasetConfig::default_max_files(),
            max_total_bytes: DatasetConfig::default_max_total_bytes(),
            enable_merkle: true,
        }
    }
}

impl WorkflowConfig {
    pub fn default_max_nodes() -> (r: usize)
        ensures
            r == 200000,
    {
        200000
    }

    pub fn default_max_edges() -> (r: usize)
        ensures
            r == 400000,
    {
        400000
    }
}

impl Default for WorkflowConfig {
    fn default() -> (r: Self)
        ensures
            r.max_nodes == 200000,
            r.max_edges == 400000,
            r.enable_yaml,
    {
        WorkflowConfig {
            max_nodes: WorkflowConfig::default_max_nodes(),
            max_edges: WorkflowConfig::default_max_edges(),
            enable_yaml: true,
        }
    }
}

impl ApiConfig {
    pub fn default_enabled() -> (r: bool)
        ensures
            r,
    {
        true
    }

    pub fn default_version() -> (r: String)
        ensures
            r@ == "v1"@,
    {
        String::from_str("v1")
    }
}

impl Default for ApiConfig {
    fn default() -> (r: Self)
        ensures
            r.enabled,
            r.version@ == "v1"@,
    {
        ApiConfig { enabled: ApiConfig::default_enabled(), version: ApiConfig::default_version() }
    }
}

impl Default for BuiltinConfig {
    fn default() -> (r: Self)
        ensures
            r.repo.max_files == 50000,
            r.dataset.max_files == 100000,
            r.workflow.max_nodes == 200000,
            r.api.enabled,
    {
        BuiltinConfig {
            repo: RepoConfig::default(),
            dataset: DatasetConfig::default(),
            workflow: WorkflowConfig::default(),
            api: ApiConfig::default(),
        }
    }
}

} // verus!
