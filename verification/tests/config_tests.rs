use pevm_analyzer::api::{FailResponse, HealthResp};
use pevm_analyzer::config::{Cli, Config};

#[test]
fn config_carries_run_parameters() {
    let config = Config {
        execution_api: "http://localhost:8545".to_string(),
        start_block: 50,
        chain_id: 1,
        server_addr: "0.0.0.0:3000".to_string(),
        database_url: "postgres://localhost/pevm".to_string(),
    };
    assert_eq!(config.start_block, 50);
    assert_eq!(config.chain_id, 1);
    assert_eq!(config.execution_api, "http://localhost:8545");
}

#[test]
fn cli_distinguishes_version_runs() {
    let cli = Cli { config: Some("config.toml".to_string()), version: false };
    assert!(!cli.version);
    assert_eq!(cli.config.as_deref(), Some("config.toml"));
    let version_only = Cli { config: None, version: true };
    assert!(version_only.version);
}

#[test]
fn failure_bodies_carry_code_and_message() {
    let fail = FailResponse { code: 500, message: "storage error".to_string() };
    assert_eq!(fail.code, 500);
    assert_eq!(fail.message, "storage error");
    let _healthy = HealthResp {};
}
