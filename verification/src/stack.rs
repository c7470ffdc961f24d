//! The root stack configuration: environment, provider, deployment mode,
//! project, deployment and the supporting components.

use vstd::prelude::*;
use vstd::string::*;
use crate::aws::AwsConfig;
use crate::database::SqliteConfig;
use crate::observability::ObservabilityConfig;
use crate::text::{owned, lowercase, to_lowercase, text_eq, ascii_lower, is_ascii_text};

verus! {

/// Deployment environment.
#[derive(Debug, Clone, Copy, PartialEq, Eq, Structural)]
pub enum Environment {
    /// Development environment with minimal resources
    Dev,
    /// Staging environment mirroring production
    Staging,
    /// Production environment with full resources
    Prod,
}

/// Whether an environment is production.
pub open spec fn env_is_production(e: Environment) -> bool {
    e == Environment::Prod
}

impl Environment {
    /// Display name for this environment.
    pub fn display_name(&self) -> (r: &'static str)
        ensures
            r@ == match *self {
                Environment::Dev => "Development"@,
                Environment::Staging => "Staging"@,
                Environment::Prod => "Production"@,
            },
    {
        match self {
            Environment::Dev => "Development",
            Environment::Staging => "Staging",
            Environment::Prod => "Production",
        }
    }

    /// Whether this is the production environment.
    pub fn is_production(&self) -> (r: bool)
        ensures
            r == env_is_production(*self),
    {
        match self {
            Environment::Prod => true,
            _ => false,
        }
    }

    /// Whether this is a non-production environment: exactly the negation of
    /// `is_production`.
    pub fn is_non_production(&self) -> (r: bool)
        ensures
            r == !env_is_production(*self),
    {
        !self.is_production()
    }
}

/// Exactly one of `is_production` and `is_non_production` holds, and only
/// `Prod` is production.
pub proof fn lemma_production_split(e: Environment)
    ensures
        env_is_production(e) != !env_is_production(e),
        env_is_production(e) <==> e == Environment::Prod,
{
}

/// Cloud provider selection.
#[derive(Debug, Clone, Copy, PartialEq, Eq, Structural)]
pub enum Provider {
    /// Amazon Web Services
    Aws,
    /// Google Cloud Platform
    Gcp,
    /// Microsoft Azure
    Azure,
    /// Local development environment
    Local,
}

impl Provider {
    /// Display name for this provider.
    pub fn display_name(&self) -> (r: &'static str)
        ensures
            r@ == match *self {
                Provider::Aws => "AWS"@,
                Provider::Gcp => "Google Cloud"@,
                Provider::Azure => "Azure"@,
                Provider::Local => "Local"@,
            },
    {
        match self {
            Provider::Aws => "AWS",
            Provider::Gcp => "Google Cloud",
            Provider::Azure => "Azure",
            Provider::Local => "Local",
        }
    }

    /// Whether this is a cloud provider (every provider but `Local`).
    pub fn is_cloud(&self) -> (r: bool)
        ensures
            r == (*self != Provider::Local),
    {
        match self {
            Provider::Local => false,
            _ => true,
        }
    }
}

/// Compute deployment mode.
#[derive(Debug, Clone, Copy, PartialEq, Eq, Structural)]
pub enum DeployMode {
    /// AWS Lambda serverless functions
    Lambda,
    /// ECS Fargate with Spot instances for cost optimization
    EcsFargateSpot,
}

impl DeployMode {
    /// Display name for this deployment mode.
    pub fn display_name(&self) -> (r: &'static str)
        ensures
            r@ == match *self {
                DeployMode::Lambda => "AWS Lambda"@,
                DeployMode::EcsFargateSpot => "ECS Fargate Spot"@,
            },
    {
        match self {
            DeployMode::Lambda => "AWS Lambda",
            DeployMode::EcsFargateSpot => "ECS Fargate Spot",
        }
    }

    /// Whether this is a serverless deployment (Lambda).
    pub fn is_serverless(&self) -> (r: bool)
        ensures
            r == (*self == DeployMode::Lambda),
    {
        match self {
            DeployMode::Lambda => true,
            _ => false,
        }
    }
}

/// Project metadata and region.
#[derive(Debug, Clone)]
pub struct ProjectConfig {
    /// Project/application name
    pub name: String,
    /// Project version (semver)
    pub version: String,
    /// Primary cloud region or location
    pub region: String,
}

impl ProjectConfig {
    /// Create a project configuration.
    pub fn new(name: &str, version: &str, region: &str) -> (r: Self)
        ensures
            r.name@ == name@,
            r.version@ == version@,
            r.region@ == region@,
    {
        ProjectConfig { name: owned(name), version: owned(version), region: owned(region) }
    }
}

/// Deployment mode, function settings and runtime configuration.
#[derive(Debug, Clone)]
pub struct DeployConfig {
    /// Deployment mode: "lambda" or "ecs-fargate-spot"
    pub mode: String,
    /// Lambda function name
    pub function_name: String,
    /// Runtime identifier (e.g., "provided.al2023")
    pub runtime: String,
    /// Architecture: "arm64" or "x86_64"
    pub architecture: String,
    /// Memory allocation in MB
    pub memory_mb: u32,
    /// Timeout in seconds
    pub timeout_seconds: u32,
}

/// Whether the deployment mode names Lambda, ignoring case.
pub open spec fn mode_is_lambda(d: DeployConfig) -> bool {
    lowercase(d.mode@) == "lambda"@
}

/// Whether the deployment mode names ECS Fargate Spot, ignoring case.
pub open spec fn mode_is_ecs_fargate_spot(d: DeployConfig) -> bool {
    lowercase(d.mode@) == "ecs-fargate-spot"@
}

/// Whether the architecture names ARM64, ignoring case.
pub open spec fn arch_is_arm64(d: DeployConfig) -> bool {
    lowercase(d.architecture@) == "arm64"@
}

impl DeployConfig {
    /// Whether this is a Lambda deployment (mode compared case-insensitively).
    pub fn is_lambda(&self) -> (r: bool)
        ensures
            r == mode_is_lambda(*self),
            is_ascii_text(self.mode@) ==> r == (ascii_lower(self.mode@) == "lambda"@),
    {
        let lowered = to_lowercase(self.mode.as_str());
        text_eq(lowered.as_str(), "lambda")
    }

    /// Whether this is an ECS Fargate Spot deployment (mode compared
    /// case-insensitively).
    pub fn is_ecs_fargate_spot(&self) -> (r: bool)
        ensures
            r == mode_is_ecs_fargate_spot(*self),
            is_ascii_text(self.mode@) ==> r == (ascii_lower(self.mode@) == "ecs-fargate-spot"@),
    {
        let lowered = to_lowercase(self.mode.as_str());
        text_eq(lowered.as_str(), "ecs-fargate-spot")
    }

    /// Whether this is ARM architecture (compared case-insensitively).
    pub fn is_arm64(&self) -> (r: bool)
        ensures
            r == arch_is_arm64(*self),
            is_ascii_text(self.architecture@) ==> r == (ascii_lower(self.architecture@) == "arm64"@),
    {
        let lowered = to_lowercase(self.architecture.as_str());
        text_eq(lowered.as_str(), "arm64")
    }
}

/// A deployment is never both Lambda and ECS Fargate Spot.
pub proof fn lemma_deploy_modes_exclusive(d: DeployConfig)
    ensures
        !(mode_is_lambda(d) && mode_is_ecs_fargate_spot(d)),
{
    reveal_strlit("lambda");
    reveal_strlit("ecs-fargate-spot");
    if mode_is_lambda(d) && mode_is_ecs_fargate_spot(d) {
        assert("lambda"@.len() != "ecs-fargate-spot"@.len());
    }
}

/// Root infrastructure stack configuration.
#[derive(Debug, Clone)]
pub struct Stack {
    /// Project configuration
    pub project: ProjectConfig,
    /// Deployment configuration
    pub deploy: DeployConfig,
    /// Database configuration (SQLite with optional S3 backup)
    pub database: SqliteConfig,
    /// Observability configuration (logging, metrics, alerts)
    pub observability: ObservabilityConfig,
    /// AWS configuration
    pub aws: AwsConfig,
}

/// The identifier of a stack: `<project name>-<region>`.
pub open spec fn stack_identifier(name: Seq<char>, region: Seq<char>) -> Seq<char> {
    name + seq!['-'] + region
}

impl Stack {
    /// The stack identifier, `<project name>-<region>`.
    pub fn identifier(&self) -> (r: String)
        ensures
            r@ == stack_identifier(self.project.name@, self.project.region@),
    {
        let mut s = self.project.name.clone();
        s.push('-');
        s.append(self.project.region.as_str());
        s
    }
}

} // verus!
