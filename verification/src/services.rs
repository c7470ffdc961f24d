//! Service deployments, health checks and auto-scaling.

use vstd::prelude::*;
use crate::text::owned;

verus! {

/// An application service with optional health checks and auto-scaling.
#[derive(Debug, Clone)]
pub struct ServiceConfig {
    /// Service name
    pub name: String,
    /// Service port number
    pub port: u16,
    /// Health check configuration
    pub health_check: Option<HealthCheck>,
    /// Auto-scaling configuration
    pub scaling: Option<ScalingConfig>,
}

impl ServiceConfig {
    /// Create a service with no health check and no scaling.
    pub fn new(name: &str, port: u16) -> (r: Self)
        ensures
            r.name@ == name@,
            r.port == port,
            r.health_check is None,
            r.scaling is None,
    {
        ServiceConfig { name: owned(name), port, health_check: None, scaling: None }
    }

    /// Set the health check, leaving the rest unchanged.
    pub fn with_health_check(self, health_check: HealthCheck) -> (r: Self)
        ensures
            r == (ServiceConfig { health_check: Some(health_check), ..self }),
    {
        let mut s = self;
        s.health_check = Some(health_check);
        s
    }

    /// Set the auto-scaling configuration, leaving the rest unchanged.
    pub fn with_scaling(self, scaling: ScalingConfig) -> (r: Self)
        ensures
            r == (ServiceConfig { scaling: Some(scaling), ..self }),
    {
        let mut s = self;
        s.scaling = Some(scaling);
        s
    }
}

/// Health check configuration for a service.
#[derive(Debug, Clone)]
pub struct HealthCheck {
    /// HTTP path to check (e.g., "/health")
    pub path: String,
    /// Interval between health checks in seconds
    pub interval_seconds: u32,
    /// Number of consecutive successes before marking healthy
    pub healthy_threshold: u32,
}

/// The health check interval used when a configuration leaves it out.
pub fn default_interval() -> (r: u32)
    ensures
        r == 30,
{
    30
}

/// The healthy threshold used when a configuration leaves it out.
pub fn default_healthy_threshold() -> (r: u32)
    ensures
        r == 2,
{
    2
}

impl HealthCheck {
    /// Create a health check of `path` every 30 seconds, healthy after 2 successes.
    pub fn new(path: &str) -> (r: Self)
        ensures
            r.path@ == path@,
            r.interval_seconds == 30,
            r.healthy_threshold == 2,
    {
        HealthCheck { path: owned(path), interval_seconds: 30, healthy_threshold: 2 }
    }
}

/// Auto-scaling configuration for a service.
#[derive(Debug, Clone, Copy, PartialEq, Eq, Structural)]
pub struct ScalingConfig {
    /// Minimum number of instances
    pub min_instances: u32,
    /// Maximum number of instances
    pub max_instances: u32,
    /// Target CPU utilization percentage (0-100)
    pub target_cpu_percent: u32,
}

/// The CPU target used when a configuration leaves it out.
pub fn default_cpu_target() -> (r: u32)
    ensures
        r == 70,
{
    70
}

/// A scaling range is valid when its minimum does not exceed its maximum.
pub open spec fn scaling_valid(s: ScalingConfig) -> bool {
    s.min_instances <= s.max_instances
}

/// A new scaling range is valid exactly when its minimum does not exceed its
/// maximum, whatever the CPU target.
pub proof fn lemma_new_scaling_valid(min_instances: u32, max_instances: u32, target: u32)
    ensures
        scaling_valid(ScalingConfig { min_instances, max_instances, target_cpu_percent: target })
            <==> min_instances <= max_instances,
{
}

impl ScalingConfig {
    /// Create a scaling range targeting 70% CPU.
    pub fn new(min_instances: u32, max_instances: u32) -> (r: Self)
        ensures
            r == (ScalingConfig { min_instances, max_instances, target_cpu_percent: 70 }),
    {
        ScalingConfig { min_instances, max_instances, target_cpu_percent: 70 }
    }

    /// Whether this configuration is valid (min <= max).
    pub fn is_valid(&self) -> (r: bool)
        ensures
            r == scaling_valid(*self),
    {
        self.min_instances <= self.max_instances
    }
}

} // verus!
