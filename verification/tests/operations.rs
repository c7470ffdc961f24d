use infra_types::backup::{backup_key, compress_data};
use infra_types::deploy::{
    cache_control_for, copy_source, ecr_credentials, prod_tag_for, registry_of, secret_name,
    EnvConfig,
};
use infra_types::infra::{iac_command, IacStep};
use infra_types::ui::HealthResponse;
use std::io::Read;

#[test]
fn ecr_token_split() {
    assert_eq!(ecr_credentials("AWS:secret"), Some(("AWS".to_string(), "secret".to_string())));
    assert_eq!(ecr_credentials("AWS:se:cret"), None);
    assert_eq!(ecr_credentials("nocolon"), None);
    assert_eq!(ecr_credentials(":"), Some((String::new(), String::new())));
}

#[test]
fn registry_of_image() {
    assert_eq!(
        registry_of("123.dkr.ecr.us-east-1.amazonaws.com/app:latest"),
        "123.dkr.ecr.us-east-1.amazonaws.com"
    );
    assert_eq!(registry_of("local"), "local");
}

#[test]
fn cache_control_and_copy_source() {
    assert_eq!(cache_control_for("index.html"), "no-cache,no-store,must-revalidate");
    assert_eq!(cache_control_for("assets/app.js"), "public,max-age=31536000,immutable");
    assert_eq!(cache_control_for("sub/index.html"), "public,max-age=31536000,immutable");
    assert_eq!(copy_source("dev-bucket", "a/b.js"), "dev-bucket/a/b.js");
}

#[test]
fn release_tags() {
    assert_eq!(prod_tag_for("dev-v1.2.3"), Some("v1.2.3".to_string()));
    assert_eq!(prod_tag_for("dev-v"), Some("v".to_string()));
    assert_eq!(prod_tag_for("v1.2.3"), None);
    assert_eq!(prod_tag_for("dev-"), None);
}

#[test]
fn env_config_from_json() {
    assert_eq!(secret_name("dev"), "deploy-baba/dev/deploy-config");
    let raw = r#"{"spa_bucket":"spa","cloudfront_id":"CF","ui_fn_name":"ui","agent_fn_name":7,"fn_url":"https://x"}"#;
    let cfg = EnvConfig::from_secret_json(raw).unwrap();
    assert_eq!(cfg.spa_bucket, "spa");
    assert_eq!(cfg.cloudfront_id, "CF");
    assert_eq!(cfg.ui_fn_name, "ui");
    assert_eq!(cfg.agent_fn_name, "");
    assert_eq!(cfg.fn_url, "https://x");
    assert!(EnvConfig::from_secret_json("not json").is_err());
    let empty = EnvConfig::from_secret_json("[1,2]").unwrap();
    assert_eq!(empty.spa_bucket, "");
}

#[test]
fn iac_command_lines() {
    let init = iac_command(None, None, IacStep::Init);
    assert_eq!(init.dir, "infra");
    assert_eq!(init.args, vec!["-chdir=infra".to_string(), "init".to_string()]);
    assert_eq!(init.aws_profile, None);
    let apply = iac_command(Some("stack".to_string()), Some("p".to_string()), IacStep::Apply { auto_approve: true });
    assert_eq!(apply.args, vec!["-chdir=stack", "apply", "-auto-approve"]);
    assert_eq!(apply.aws_profile, Some("p".to_string()));
    let destroy = iac_command(None, None, IacStep::Destroy { auto_approve: false });
    assert_eq!(destroy.args, vec!["-chdir=infra", "destroy"]);
    let out = iac_command(None, None, IacStep::Output { name: Some("url".to_string()) });
    assert_eq!(out.args, vec!["-chdir=infra", "output", "-json", "url"]);
    let plan = iac_command(None, None, IacStep::Plan);
    assert_eq!(plan.args, vec!["-chdir=infra", "plan"]);
}

#[test]
fn backup_key_and_compression() {
    assert_eq!(backup_key(1700000000), "db-backups/app-1700000000.db.gz");
    assert_eq!(backup_key(0), "db-backups/app-0.db.gz");
    let data = b"hello hello hello database".to_vec();
    let gz = compress_data(&data).unwrap();
    assert_ne!(gz, data);
    assert_eq!(&gz[..3], &[0x1f, 0x8b, 8]);
    let mut dec = flate2::read::GzDecoder::new(&gz[..]);
    let mut back = Vec::new();
    dec.read_to_end(&mut back).unwrap();
    assert_eq!(back, data);
}

#[test]
fn health_answer() {
    let h = HealthResponse::healthy("0.1.0");
    assert_eq!(h.status, "ok");
    assert_eq!(h.version, "0.1.0");
}
