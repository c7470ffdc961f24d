use infra_types::{
    AlertConfig, AwsConfig, DeployConfig, DeployMode, EgressRule, Environment, HealthCheck,
    InfraError, IngressRule, LogLevel, MetricsConfig, NetworkConfig, ObservabilityConfig,
    ProjectConfig, Provider, S3BackupConfig, ScalingConfig, SecurityGroup, ServiceConfig,
    SqliteConfig, Stack, Subnet,
};

// ── aws ──────────────────────────────────────────────────────────────────────

#[test]
fn test_aws_config_creation() {
    let aws = AwsConfig::new("my-profile", "my-tfstate", "/my-app");
    assert_eq!(aws.profile, "my-profile");
    assert_eq!(aws.state_bucket_prefix, "my-tfstate");
    assert_eq!(aws.ssm_prefix, "/my-app");
}

#[test]
fn test_ssm_param_path() {
    let aws = AwsConfig::new("default", "tfstate", "/app");
    assert_eq!(aws.ssm_param_path("database_url"), "/app/database_url");
    assert_eq!(aws.ssm_param_path("api_key"), "/app/api_key");
}

#[test]
fn test_state_bucket_name() {
    let aws = AwsConfig::new("default", "my-bucket", "/app");
    assert_eq!(aws.state_bucket_name(), "my-bucket");
}

#[test]
fn test_aws_config_default() {
    let aws = AwsConfig::default();
    assert_eq!(aws.profile, "default");
    assert_eq!(aws.state_bucket_prefix, "terraform-state");
    assert_eq!(aws.ssm_prefix, "/app");
}

#[test]
fn ssm_param_path_doc_example() {
    let aws = AwsConfig::new("default", "tfstate", "/app");
    assert_eq!(aws.ssm_param_path("db_host"), "/app/db_host");
    assert_eq!(aws.ssm_param_path(""), "/app/");
}

// ── database ─────────────────────────────────────────────────────────────────

#[test]
fn test_sqlite_config_creation() {
    let config = SqliteConfig::with_path("/mnt/db/app.db");
    assert_eq!(config.path, "/mnt/db/app.db");
    assert!(config.wal_mode);
    assert!(config.backup.is_none());
}

#[test]
fn test_sqlite_config_filename() {
    let config = SqliteConfig::with_path("/mnt/db/app.db");
    assert_eq!(config.filename(), Some("app.db"));
}

#[test]
fn test_sqlite_config_with_backup() {
    let backup = S3BackupConfig::new("backups", "db");
    let config = SqliteConfig::with_path("/mnt/db/app.db").with_backup(backup);

    assert!(config.has_backup());
    assert!(config.backup.is_some());
}

#[test]
fn test_s3_backup_config_creation() {
    let backup = S3BackupConfig::new("my-bucket", "backups/");
    assert_eq!(backup.bucket, "my-bucket");
    assert_eq!(backup.prefix, Some("backups/".to_string()));
    assert_eq!(backup.retain_versions, 7);
}

#[test]
fn test_s3_backup_s3_key_prefix() {
    let backup = S3BackupConfig::new("my-bucket", "backups/");
    assert_eq!(backup.s3_key_prefix(), "s3://my-bucket/backups/");

    let backup_no_prefix = S3BackupConfig {
        bucket: "my-bucket".to_string(),
        prefix: None,
        retain_versions: 7,
        schedule: "rate(1 day)".to_string(),
    };
    assert_eq!(backup_no_prefix.s3_key_prefix(), "s3://my-bucket");
}

#[test]
fn test_s3_backup_with_schedule() {
    let backup = S3BackupConfig::new("backups", "db").with_schedule("cron(0 2 * * ? *)");

    assert_eq!(backup.schedule, "cron(0 2 * * ? *)");
}

#[test]
fn test_sqlite_config_default() {
    let config = SqliteConfig::default();
    assert_eq!(config.path, "/mnt/db/app.db");
    assert!(config.wal_mode);
}

#[test]
fn test_s3_backup_config_default() {
    let backup = S3BackupConfig::default();
    assert_eq!(backup.bucket, "database-backups");
    assert_eq!(backup.retain_versions, 7);
}

#[test]
fn sqlite_filename_edge_cases() {
    assert_eq!(SqliteConfig::with_path("app.db").filename(), Some("app.db"));
    assert_eq!(SqliteConfig::with_path("/mnt/db/").filename(), Some(""));
    assert_eq!(SqliteConfig::with_path("").filename(), Some(""));
    assert_eq!(SqliteConfig::with_path("/a/é.db").filename(), Some("é.db"));
}

#[test]
fn sqlite_builders_change_one_field() {
    let config = SqliteConfig::with_path("/x.db").with_wal_mode(false);
    assert!(!config.wal_mode);
    assert_eq!(config.path, "/x.db");
    assert!(!config.has_backup());
}

#[test]
fn s3_backup_retain_and_defaults() {
    let backup = S3BackupConfig::new("b", "p").with_retain_versions(30);
    assert_eq!(backup.retain_versions, 30);
    assert_eq!(backup.schedule, "rate(1 day)");
    assert_eq!(S3BackupConfig::default().prefix, Some("sqlite/".to_string()));
    assert_eq!(S3BackupConfig::default().s3_key_prefix(), "s3://database-backups/sqlite/");
    assert!(infra_types::database::default_wal_mode());
    assert_eq!(infra_types::database::default_retain_versions(), 7);
    assert_eq!(infra_types::database::default_schedule(), "rate(1 day)");
}

// ── errors ───────────────────────────────────────────────────────────────────

#[test]
fn test_validation_error() {
    let err = InfraError::validation("test validation");
    assert!(err.message().contains("validation error"));
}

#[test]
fn test_missing_field_error() {
    let err = InfraError::missing("database_path");
    assert!(err.message().contains("database_path"));
}

#[test]
fn test_invalid_value_error() {
    let err = InfraError::invalid("memory_mb", "must be positive");
    assert!(err.message().contains("memory_mb"));
    assert!(err.message().contains("must be positive"));
}

#[test]
fn error_messages_exact() {
    assert_eq!(InfraError::validation("x").message(), "validation error: x");
    assert_eq!(InfraError::missing("f").message(), "missing required field: f");
    assert_eq!(InfraError::invalid("a", "b").message(), "invalid a: b");
    assert_eq!(InfraError::TomlParse("t".to_string()).message(), "toml parse error: t");
    assert_eq!(InfraError::Path("p".to_string()).message(), "path error: p");
    let io = InfraError::Io(std::io::Error::new(std::io::ErrorKind::Other, "boom"));
    assert_eq!(io.message(), "io error: boom");
}

// ── network ──────────────────────────────────────────────────────────────────

#[test]
fn test_network_config_creation() {
    let network = NetworkConfig::new("10.0.0.0/16");
    assert_eq!(network.vpc_cidr, "10.0.0.0/16");
    assert!(network.subnets.is_empty());
}

#[test]
fn test_network_config_add_subnet() {
    let subnet = Subnet::new("10.0.1.0/24", "us-east-1a");
    let network = NetworkConfig::new("10.0.0.0/16").add_subnet(subnet);

    assert_eq!(network.subnets.len(), 1);
    assert_eq!(network.subnets[0].cidr, "10.0.1.0/24");
}

#[test]
fn test_subnet_as_public() {
    let subnet = Subnet::new("10.0.1.0/24", "us-east-1a").as_public();
    assert!(subnet.is_public);
}

#[test]
fn test_security_group_creation() {
    let sg = SecurityGroup::new("app-sg", "Application security group");
    assert_eq!(sg.name, "app-sg");
    assert_eq!(sg.description, "Application security group");
    assert!(sg.ingress.is_empty());
    assert!(sg.egress.is_empty());
}

#[test]
fn test_security_group_add_rules() {
    let ingress = IngressRule::new("tcp", 443, 443, "0.0.0.0/0");
    let egress = EgressRule::new("tcp", 443, 443, "0.0.0.0/0");
    let sg = SecurityGroup::new("app-sg", "Test").add_ingress(ingress).add_egress(egress);

    assert_eq!(sg.ingress.len(), 1);
    assert_eq!(sg.egress.len(), 1);
}

#[test]
fn test_ingress_rule_port_range_single() {
    let rule = IngressRule::new("tcp", 443, 443, "0.0.0.0/0");
    assert_eq!(rule.port_range, "443");
}

#[test]
fn test_ingress_rule_port_range_multiple() {
    let rule = IngressRule::new("tcp", 80, 443, "0.0.0.0/0");
    assert_eq!(rule.port_range, "80-443");
}

#[test]
fn test_egress_rule_port_range() {
    let rule = EgressRule::new("tcp", 443, 443, "0.0.0.0/0");
    assert_eq!(rule.port_range, "443");
}

#[test]
fn port_range_extremes() {
    assert_eq!(IngressRule::new("udp", 0, 0, "x").port_range, "0");
    assert_eq!(EgressRule::new("tcp", 0, 65535, "y").port_range, "0-65535");
    assert_eq!(EgressRule::new("tcp", 9, 10, "y").destination, "y");
    assert_eq!(IngressRule::new("tcp", 8080, 22, "s").port_range, "8080-22");
}

#[test]
fn network_appends_keep_order() {
    let network = NetworkConfig::default()
        .add_subnet(Subnet::new("10.0.1.0/24", "a"))
        .add_subnet(Subnet::new("10.0.2.0/24", "b"))
        .add_security_group(SecurityGroup::new("sg", "d"));
    assert_eq!(network.vpc_cidr, "10.0.0.0/16");
    assert_eq!(network.subnets[1].availability_zone, "b");
    assert_eq!(network.security_groups.len(), 1);
}

// ── observability ────────────────────────────────────────────────────────────

#[test]
fn test_log_level_order() {
    assert!(LogLevel::Trace.includes(LogLevel::Debug));
    assert!(LogLevel::Debug.includes(LogLevel::Info));
    assert!(!LogLevel::Error.includes(LogLevel::Warn));
}

#[test]
fn test_log_level_display() {
    assert_eq!(LogLevel::Trace.display_name(), "Trace");
    assert_eq!(LogLevel::Info.display_name(), "Info");
    assert_eq!(LogLevel::Error.display_name(), "Error");
}

#[test]
fn test_log_level_default() {
    assert_eq!(LogLevel::default(), LogLevel::Info);
}

#[test]
fn test_metrics_config_creation() {
    let config = MetricsConfig { namespace: "app-metrics".to_string(), enabled: true };
    assert_eq!(config.namespace, "app-metrics");
    assert!(config.enabled);
}

#[test]
fn test_alert_config_with_email() {
    let config = AlertConfig { email: Some("admin@example.com".to_string()), sns_topic_arn: None };
    assert_eq!(config.email, Some("admin@example.com".to_string()));
    assert!(config.sns_topic_arn.is_none());
}

#[test]
fn test_alert_config_with_sns() {
    let config = AlertConfig {
        email: None,
        sns_topic_arn: Some("arn:aws:sns:us-east-1:123456789012:alerts".to_string()),
    };
    assert!(config.email.is_none());
    assert!(config.sns_topic_arn.is_some());
}

#[test]
fn test_observability_config_default() {
    let config = ObservabilityConfig::default();
    assert_eq!(config.log_level, LogLevel::Info);
    assert!(config.metrics.is_none());
    assert!(config.alerts.is_none());
}

#[test]
fn test_observability_with_metrics() {
    let metrics = MetricsConfig { namespace: "app".to_string(), enabled: true };
    let config =
        ObservabilityConfig { log_level: LogLevel::Debug, metrics: Some(metrics), alerts: None };
    assert_eq!(config.log_level, LogLevel::Debug);
    assert!(config.metrics.is_some());
}

#[test]
fn test_observability_with_alerts() {
    let alerts = AlertConfig { email: Some("test@example.com".to_string()), sns_topic_arn: None };
    let config =
        ObservabilityConfig { log_level: LogLevel::Error, metrics: None, alerts: Some(alerts) };
    assert!(config.alerts.is_some());
}

#[test]
fn log_level_total_order_on_all_pairs() {
    let all = [LogLevel::Trace, LogLevel::Debug, LogLevel::Info, LogLevel::Warn, LogLevel::Error];
    for (i, a) in all.iter().enumerate() {
        assert_eq!(a.as_u8() as usize, i);
        for (j, b) in all.iter().enumerate() {
            assert_eq!(a.includes(*b), i <= j);
            if a.includes(*b) && b.includes(*a) {
                assert_eq!(a, b);
            }
        }
    }
    assert_eq!(LogLevel::Warn.display_name(), "Warning");
    assert_eq!(LogLevel::Debug.display_name(), "Debug");
    assert!(infra_types::observability::default_enabled());
}

// ── services ─────────────────────────────────────────────────────────────────

#[test]
fn test_service_config_creation() {
    let service = ServiceConfig::new("api", 8080);
    assert_eq!(service.name, "api");
    assert_eq!(service.port, 8080);
    assert!(service.health_check.is_none());
    assert!(service.scaling.is_none());
}

#[test]
fn test_service_config_with_health_check() {
    let hc = HealthCheck::new("/health");
    let service = ServiceConfig::new("api", 8080).with_health_check(hc);

    assert!(service.health_check.is_some());
    assert_eq!(service.health_check.unwrap().path, "/health");
}

#[test]
fn test_health_check_creation() {
    let hc = HealthCheck::new("/health");
    assert_eq!(hc.path, "/health");
    assert_eq!(hc.interval_seconds, 30);
    assert_eq!(hc.healthy_threshold, 2);
}

#[test]
fn test_scaling_config_creation() {
    let scaling = ScalingConfig::new(1, 10);
    assert_eq!(scaling.min_instances, 1);
    assert_eq!(scaling.max_instances, 10);
    assert_eq!(scaling.target_cpu_percent, 70);
    assert!(scaling.is_valid());
}

#[test]
fn test_scaling_config_validity() {
    let invalid = ScalingConfig::new(10, 1);
    assert!(!invalid.is_valid());

    let valid = ScalingConfig::new(1, 10);
    assert!(valid.is_valid());
}

#[test]
fn service_scaling_and_defaults() {
    let s = ServiceConfig::new("w", 1).with_scaling(ScalingConfig::new(3, 3));
    assert!(s.scaling.unwrap().is_valid());
    assert_eq!(infra_types::services::default_interval(), 30);
    assert_eq!(infra_types::services::default_healthy_threshold(), 2);
    assert_eq!(infra_types::services::default_cpu_target(), 70);
}

// ── stack ────────────────────────────────────────────────────────────────────

#[test]
fn test_environment_display() {
    assert_eq!(Environment::Dev.display_name(), "Development");
    assert_eq!(Environment::Staging.display_name(), "Staging");
    assert_eq!(Environment::Prod.display_name(), "Production");
}

#[test]
fn test_environment_is_production() {
    assert!(!Environment::Dev.is_production());
    assert!(!Environment::Staging.is_production());
    assert!(Environment::Prod.is_production());
}

#[test]
fn test_provider_is_cloud() {
    assert!(Provider::Aws.is_cloud());
    assert!(Provider::Gcp.is_cloud());
    assert!(Provider::Azure.is_cloud());
    assert!(!Provider::Local.is_cloud());
}

#[test]
fn test_deploy_mode_is_serverless() {
    assert!(DeployMode::Lambda.is_serverless());
    assert!(!DeployMode::EcsFargateSpot.is_serverless());
}

#[test]
fn test_project_config_creation() {
    let project = ProjectConfig::new("my-app", "0.1.0", "us-east-1");
    assert_eq!(project.name, "my-app");
    assert_eq!(project.version, "0.1.0");
    assert_eq!(project.region, "us-east-1");
}

#[test]
fn test_deploy_config_is_lambda() {
    let deploy = DeployConfig {
        mode: "lambda".to_string(),
        function_name: "my-func".to_string(),
        runtime: "provided.al2023".to_string(),
        architecture: "arm64".to_string(),
        memory_mb: 256,
        timeout_seconds: 30,
    };

    assert!(deploy.is_lambda());
    assert!(!deploy.is_ecs_fargate_spot());
    assert!(deploy.is_arm64());
}

#[test]
fn test_deploy_config_is_ecs() {
    let deploy = DeployConfig {
        mode: "ecs-fargate-spot".to_string(),
        function_name: "my-service".to_string(),
        runtime: "".to_string(),
        architecture: "x86_64".to_string(),
        memory_mb: 512,
        timeout_seconds: 60,
    };

    assert!(!deploy.is_lambda());
    assert!(deploy.is_ecs_fargate_spot());
    assert!(!deploy.is_arm64());
}

#[test]
fn test_stack_identifier() {
    let stack = Stack {
        project: ProjectConfig::new("my-app", "0.1.0", "us-east-1"),
        deploy: DeployConfig {
            mode: "lambda".to_string(),
            function_name: "fn".to_string(),
            runtime: "provided.al2023".to_string(),
            architecture: "arm64".to_string(),
            memory_mb: 256,
            timeout_seconds: 30,
        },
        database: SqliteConfig::default(),
        observability: ObservabilityConfig::default(),
        aws: AwsConfig::default(),
    };

    assert_eq!(stack.identifier(), "my-app-us-east-1");
}

#[test]
fn deploy_mode_ignores_case() {
    let deploy = DeployConfig {
        mode: "LaMbDa".to_string(),
        function_name: String::new(),
        runtime: String::new(),
        architecture: "ARM64".to_string(),
        memory_mb: 1,
        timeout_seconds: 1,
    };
    assert!(deploy.is_lambda());
    assert!(!deploy.is_ecs_fargate_spot());
    assert!(deploy.is_arm64());
    let other = DeployConfig { mode: "ECS-Fargate-Spot".to_string(), ..deploy.clone() };
    assert!(other.is_ecs_fargate_spot());
    let neither = DeployConfig { mode: " lambda".to_string(), ..deploy };
    assert!(!neither.is_lambda());
}

#[test]
fn display_names_and_negations() {
    assert_eq!(Provider::Gcp.display_name(), "Google Cloud");
    assert_eq!(Provider::Aws.display_name(), "AWS");
    assert_eq!(DeployMode::EcsFargateSpot.display_name(), "ECS Fargate Spot");
    assert_eq!(DeployMode::Lambda.display_name(), "AWS Lambda");
    for env in [Environment::Dev, Environment::Staging, Environment::Prod] {
        assert_eq!(env.is_non_production(), !env.is_production());
    }
}

#[test]
fn io_error_converts_into_io_variant() {
    let err: InfraError = std::io::Error::new(std::io::ErrorKind::NotFound, "gone").into();
    assert!(matches!(err, InfraError::Io(_)));
    assert!(err.message().starts_with("io error: "));
}
