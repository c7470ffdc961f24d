//! Cloud-agnostic infrastructure configuration types and the content tooling
//! built around them, with their behaviour stated and proved.

pub mod text;
pub mod aws;
pub mod database;
pub mod error;
pub mod network;
pub mod observability;
pub mod services;
pub mod stack;
pub mod markdown;
pub mod challenges;
pub mod migration;
pub mod drift;
pub mod deploy;
pub mod infra;
pub mod backup;
pub mod ui;

pub use aws::AwsConfig;
pub use database::{S3BackupConfig, SqliteConfig};
pub use error::{InfraError, Result};
pub use network::{EgressRule, IngressRule, NetworkConfig, SecurityGroup, Subnet};
pub use observability::{AlertConfig, LogLevel, MetricsConfig, ObservabilityConfig};
pub use services::{HealthCheck, ScalingConfig, ServiceConfig};
pub use stack::{DeployConfig, DeployMode, Environment, ProjectConfig, Provider, Stack};

