//! The configuration snapshot: services, the groups that order them, and the
//! manager that holds the snapshot currently in force.
//!
//! Everything here is plain data. The supervisor core reads a snapshot and
//! never writes one; reading and writing the file behind it is the caller's
//! business.

use std::collections::HashMap;
use vstd::prelude::*;

verus! {

/// Arbitrary JSON, carried through untouched.
#[verifier::external_type_specification]
#[verifier::external_body]
pub struct ExJsonValue(serde_json::Value);

/// `serde_json::Value::clone`: the derived deep copy, which yields a value
/// equal to the one it was made from.
pub assume_specification[ <serde_json::Value as Clone>::clone ](v: &serde_json::Value) -> (r:
    serde_json::Value)
    ensures
        r == *v,
;

/// How often and how patiently a failed launch is tried again.
#[derive(Debug, Clone)]
pub struct RetryConfig {
    pub enabled: bool,
    pub max_retries: u32,
    /// Milliseconds between two tries.
    pub retry_delay: u64,
    /// Growth factor of the delay, kept as the bit pattern of a
    /// single-precision number.
    pub backoff_multiplier: Option<u32>,
}

/// Time limits of a service, in milliseconds.
#[derive(Debug, Clone)]
pub struct TimeoutConfig {
    pub start_timeout: u64,
    pub stop_timeout: u64,
    pub health_check_timeout: u64,
}

/// Where and how a service's output is kept.
#[derive(Debug, Clone)]
pub struct ServiceLogConfig {
    pub enabled: bool,
    pub path: Option<String>,
    pub level: String,
    pub max_size: Option<u32>,
    pub max_files: Option<u32>,
    pub rotation: Option<String>,
}

/// Resource quotas. They are recorded, not enforced.
#[derive(Debug, Clone)]
pub struct ResourceLimits {
    pub max_memory: Option<u32>,
    pub max_cpu: Option<u32>,
    pub priority: Option<String>,
}

/// Process-level preferences of a service.
#[derive(Debug, Clone)]
pub struct ProcessConfig {
    pub kill_signal: Option<String>,
    pub graceful_shutdown_timeout: Option<u64>,
    pub restart_on_crash: Option<bool>,
    pub env_file: Option<String>,
}

/// Figures last measured for a service.
#[derive(Debug, Clone)]
pub struct ServiceMetrics {
    /// Processor share, kept as the bit pattern of a single-precision number.
    pub cpu_usage: Option<u32>,
    pub memory_usage: Option<u64>,
    pub uptime: Option<u64>,
    pub restart_count: Option<u32>,
    pub last_exit_code: Option<i32>,
    pub last_exit_signal: Option<String>,
}

/// The typed shape of a health-check declaration. The probe scheduler does
/// not evaluate it.
#[derive(Debug)]
pub struct HealthCheckConfig {
    pub enabled: bool,
    pub kind: String,
    pub config: serde_json::Value,
    pub interval: u64,
    pub timeout: u64,
    pub retries: u32,
    pub failure_threshold: u32,
    pub success_threshold: u32,
    pub start_period: Option<u64>,
}

impl Clone for HealthCheckConfig {
    /// A copy of the declaration, its settings included.
    fn clone(&self) -> (copy: Self)
        ensures
            copy == *self,
    {
        HealthCheckConfig {
            enabled: self.enabled,
            kind: self.kind.clone(),
            config: self.config.clone(),
            interval: self.interval,
            timeout: self.timeout,
            retries: self.retries,
            failure_threshold: self.failure_threshold,
            success_threshold: self.success_threshold,
            start_period: self.start_period,
        }
    }
}

/// What a dependency means for the service that declares it.
#[derive(Debug, Clone, Copy, PartialEq, Eq, Structural)]
pub enum DependencyType {
    /// Must have started before the dependant is launched.
    Required,
    /// Started if possible; its failure is of no consequence.
    Optional,
    /// Must not be live when the dependant is launched.
    Conflict,
}

/// How the services of one group are brought up.
#[derive(Debug, Clone, Copy, PartialEq, Eq, Structural)]
pub enum StartupStrategy {
    /// One after the other, in list order.
    Sequential,
    /// All of them, without pacing.
    Parallel,
    /// In waves that follow the required dependencies.
    Mixed,
}

/// One typed dependency declaration.
#[derive(Debug, Clone)]
pub struct DependencyConfig {
    pub service_id: String,
    pub kind: DependencyType,
    /// Milliseconds to wait after a required dependency has been started.
    pub timeout: Option<u64>,
    pub health_check_required: Option<bool>,
}

/// The legacy shape of a health-check declaration, the one that is probed.
#[derive(Debug, Clone)]
pub struct HealthCheck {
    pub kind: String,
    pub host: Option<String>,
    pub port: Option<u16>,
    pub url: Option<String>,
    /// Seconds between two probes.
    pub interval: u64,
    /// Seconds an HTTP probe may take.
    pub timeout: u64,
}

/// A health-check declaration in either shape.
#[derive(Debug, Clone)]
pub enum HealthCheckUnion {
    New(HealthCheckConfig),
    Old(HealthCheck),
}

/// A supervised executable.
#[derive(Debug, Clone)]
pub struct Service {
    pub id: String,
    pub name: String,
    pub description: Option<String>,
    pub kind: Option<String>,
    pub group_id: String,
    pub path: String,
    pub work_dir: Option<String>,
    pub args: Option<Vec<String>>,
    pub env: Option<HashMap<String, String>>,
    pub auto_start: bool,
    /// Milliseconds to pause after this service in a sequential batch.
    pub startup_delay: u64,
    /// The plain dependency list: ids of services that must start first.
    pub dependencies: Vec<String>,
    /// The typed dependency list. Where present it replaces the plain one.
    pub dependency_configs: Option<Vec<DependencyConfig>>,
    pub retry_config: Option<RetryConfig>,
    pub timeout_config: Option<TimeoutConfig>,
    pub log_config: Option<ServiceLogConfig>,
    pub resource_limits: Option<ResourceLimits>,
    pub process_config: Option<ProcessConfig>,
    pub health_check: Option<HealthCheckUnion>,
    pub metrics: Option<ServiceMetrics>,
    pub pid: Option<u32>,
    pub started_at: Option<String>,
    pub exit_code: Option<i32>,
    pub exit_signal: Option<String>,
    pub crash_count: Option<u32>,
    pub last_crash_time: Option<String>,
}

/// The older name of a service.
pub type Task = Service;

/// An ordered collection of services with one startup strategy.
#[derive(Debug, Clone)]
pub struct ServiceGroup {
    pub id: String,
    pub name: String,
    pub description: Option<String>,
    /// Milliseconds to pause once the whole group has been brought up.
    pub startup_delay: u64,
    pub application_id: Option<String>,
    pub services: Vec<Service>,
    pub order: i32,
    pub dependencies: Vec<String>,
    /// Absent means sequential.
    pub startup_strategy: Option<StartupStrategy>,
}

/// The older name of a service group.
pub type Group = ServiceGroup;

/// A named bundle of groups.
#[derive(Debug, Clone)]
pub struct Application {
    pub id: String,
    pub name: String,
    pub description: String,
    pub icon: String,
    pub group_ids: Vec<String>,
    pub created_at: String,
    pub updated_at: String,
}

/// Settings of the supervisor itself.
#[derive(Debug, Clone)]
pub struct Settings {
    pub server_port: u16,
    pub auto_start: bool,
    pub theme: String,
}

/// A configuration snapshot.
#[derive(Debug, Clone)]
pub struct Config {
    pub settings: Settings,
    pub groups: Vec<ServiceGroup>,
    pub applications: Vec<Application>,
}

/// The port the supervisor listens on unless told otherwise.
pub const DEFAULT_SERVER_PORT: u16 = 8899;

/// The theme used when a settings record names none.
pub fn default_theme() -> (theme: String)
    ensures
        theme@ == "system"@,
{
    "system".to_string()
}

impl ServiceGroup {
    /// The strategy in force: the declared one, or sequential.
    pub open spec fn strategy(&self) -> StartupStrategy {
        match self.startup_strategy {
            Some(s) => s,
            None => StartupStrategy::Sequential,
        }
    }

    /// The strategy in force: the declared one, or sequential.
    pub fn effective_strategy(&self) -> (s: StartupStrategy)
        ensures
            s == self.strategy(),
    {
        match self.startup_strategy {
            Some(s) => s,
            None => StartupStrategy::Sequential,
        }
    }
}

impl Config {
    /// Whether this is the empty snapshot with the stock settings.
    pub open spec fn is_default(&self) -> bool {
        &&& self.settings.server_port == DEFAULT_SERVER_PORT
        &&& !self.settings.auto_start
        &&& self.settings.theme@ == "system"@
        &&& self.groups@.len() == 0
        &&& self.applications@.len() == 0
    }
}

impl Default for Config {
    fn default() -> (config: Self)
        ensures
            config.is_default(),
    {
        Config {
            settings: Settings {
                server_port: DEFAULT_SERVER_PORT,
                auto_start: false,
                theme: default_theme(),
            },
            groups: Vec::new(),
            applications: Vec::new(),
        }
    }
}

impl Default for RetryConfig {
    fn default() -> (retry: Self)
        ensures
            !retry.enabled,
            retry.max_retries == 3,
            retry.retry_delay == 1000,
            retry.backoff_multiplier == Some(0x4000_0000u32),
    {
        RetryConfig {
            enabled: false,
            max_retries: 3,
            retry_delay: 1000,
            backoff_multiplier: Some(0x4000_0000u32),
        }
    }
}

impl Default for TimeoutConfig {
    fn default() -> (limits: Self)
        ensures
            limits.start_timeout == 30000,
            limits.stop_timeout == 10000,
            limits.health_check_timeout == 5000,
    {
        TimeoutConfig { start_timeout: 30000, stop_timeout: 10000, health_check_timeout: 5000 }
    }
}

/// Holds the snapshot in force together with the place it is stored at.
pub struct ConfigManager {
    config: Config,
    path: String,
}

impl ConfigManager {
    /// The snapshot held.
    pub closed spec fn snapshot(&self) -> Config {
        self.config
    }

    /// The place the snapshot is stored at.
    pub closed spec fn location(&self) -> Seq<char> {
        self.path@
    }

    /// A manager for the store at `path`, holding what was read from it.
    pub fn new(path: &str, stored: Option<Config>) -> (manager: Self)
        ensures
            manager.location() == path@,
            match stored {
                Some(config) => manager.snapshot() == config,
                None => manager.snapshot().is_default(),
            },
    {
        ConfigManager { config: Self::load(stored), path: path.to_owned() }
    }

    /// The snapshot to start from: what the store held, or the empty default
    /// where there was no store yet.
    pub fn load(stored: Option<Config>) -> (config: Config)
        ensures
            match stored {
                Some(found) => config == found,
                None => config.is_default(),
            },
    {
        match stored {
            Some(found) => found,
            None => Config::default(),
        }
    }

    /// The snapshot and the place it has to be written to.
    pub fn save(&self) -> (request: (&str, &Config))
        ensures
            request.0@ == self.location(),
            *request.1 == self.snapshot(),
    {
        (self.path.as_str(), &self.config)
    }

    /// The snapshot held.
    pub fn get(&self) -> (config: &Config)
        ensures
            *config == self.snapshot(),
    {
        &self.config
    }

    /// The snapshot held, to be changed in place.
    pub fn get_mut(&mut self) -> (config: &mut Config)
        ensures
            *config == old(self).snapshot(),
            final(self).snapshot() == *final(config),
            final(self).location() == old(self).location(),
    {
        &mut self.config
    }

    /// Replaces the snapshot held.
    pub fn set(&mut self, config: Config)
        ensures
            final(self).snapshot() == config,
            final(self).location() == old(self).location(),
    {
        self.config = config;
    }
}

/// Installs a manager for the store at `path` in `slot`, replacing any that
/// was there.
pub fn init(slot: &mut Option<ConfigManager>, path: &str, stored: Option<Config>)
    ensures
        (*final(slot)) is Some,
        (*final(slot))->Some_0.location() == path@,
        match stored {
            Some(config) => (*final(slot))->Some_0.snapshot() == config,
            None => (*final(slot))->Some_0.snapshot().is_default(),
        },
{
    *slot = Some(ConfigManager::new(path, stored));
}

/// The snapshot in force, if a manager has been installed.
pub fn get_config(slot: &Option<ConfigManager>) -> (config: Option<&Config>)
    ensures
        match config {
            Some(found) => slot is Some && *found == slot->Some_0.snapshot(),
            None => slot is None,
        },
{
    match slot {
        Some(manager) => Some(manager.get()),
        None => None,
    }
}

/// What has to be written to keep the snapshot in force: the place and the
/// snapshot, or nothing where no manager has been installed.
pub fn save_config(slot: &Option<ConfigManager>) -> (request: Option<(&str, &Config)>)
    ensures
        match request {
            Some(write) => slot is Some && write.0@ == slot->Some_0.location() && *write.1
                == slot->Some_0.snapshot(),
            None => slot is None,
        },
{
    match slot {
        Some(manager) => Some(manager.save()),
        None => None,
    }
}

/// Puts `config` in force and says what has to be written for it. Without a
/// manager nothing changes and nothing is to be written.
pub fn update_config(slot: &mut Option<ConfigManager>, config: Config) -> (request: Option<
    (&str, &Config),
>)
    ensures
        match request {
            Some(write) => {
                &&& (*old(slot)) is Some
                &&& (*final(slot)) is Some
                &&& (*final(slot))->Some_0.snapshot() == config
                &&& (*final(slot))->Some_0.location() == (*old(slot))->Some_0.location()
                &&& write.0@ == (*old(slot))->Some_0.location()
                &&& *write.1 == config
            },
            None => (*old(slot)) is None && (*final(slot)) is None,
        },
{
    match slot {
        Some(manager) => {
            manager.set(config);
            Some(manager.save())
        },
        None => None,
    }
}

} // verus!
