use reqaz::config::{
    effective_generate, entry_output_path, plan_generation, CliArgs, CliConfig, GenerateConfig,
    PipelineConfig,
};
use reqaz::resolve::SourceError;

#[test]
fn default_configuration() {
    let c = CliConfig::default();
    assert!(c.root.is_none());
    assert_eq!(c.port, 5000);
    assert!(!c.log);
    assert!(c.generate.is_none());
}

#[test]
fn cli_options_override_configured_values() {
    let base = CliConfig {
        root: Some("/old".to_string()),
        port: 5000,
        log: false,
        generate: None,
    };
    let cli = CliArgs {
        path: Some("/new".to_string()),
        port: Some(8080),
        log: Some(true),
        serve_only: false,
    };
    let c = base.override_with_cli(&cli);
    assert_eq!(c.root, Some("/new".to_string()));
    assert_eq!(c.port, 8080);
    assert!(c.log);
}

#[test]
fn absent_cli_options_leave_configuration_alone() {
    let base = CliConfig {
        root: Some("/old".to_string()),
        port: 7000,
        log: true,
        generate: None,
    };
    let cli = CliArgs { path: None, port: None, log: None, serve_only: false };
    let c = base.override_with_cli(&cli);
    assert_eq!(c.root, Some("/old".to_string()));
    assert_eq!(c.port, 7000);
    assert!(c.log);
}

#[test]
fn serve_subcommand_disables_generation() {
    let gen = GenerateConfig { output_dir: "/out".to_string(), pipelines: Vec::new() };
    assert!(effective_generate(true, Some(gen)).is_none());
    let gen2 = GenerateConfig { output_dir: "/out".to_string(), pipelines: Vec::new() };
    assert!(effective_generate(false, Some(gen2)).is_some());
}

#[test]
fn output_path_joins_below_output_dir() {
    let entry = PipelineConfig { input: "/index.html".to_string(), output: "index.html".to_string() };
    assert_eq!(entry_output_path("/out", &entry), "/out/index.html");
}

#[test]
fn failed_entries_are_skipped_and_counted_out() {
    // two entries; the first input does not exist
    let cfg = GenerateConfig {
        output_dir: "/out".to_string(),
        pipelines: vec![
            PipelineConfig { input: "/missing.html".to_string(), output: "missing.html".to_string() },
            PipelineConfig { input: "/index.html".to_string(), output: "index.html".to_string() },
        ],
    };
    let results: Vec<Result<Vec<u8>, SourceError>> = vec![
        Err(SourceError::NotFound),
        Ok(b"<html></html>".to_vec()),
    ];
    let (writes, count) = plan_generation(&cfg, results);
    assert_eq!(count, 1);
    assert_eq!(writes.len(), 1);
    assert_eq!(writes[0].0, "/out/index.html");
    assert_eq!(writes[0].1, b"<html></html>".to_vec());
}

#[test]
fn all_successful_entries_are_written_in_order() {
    let cfg = GenerateConfig {
        output_dir: "/out".to_string(),
        pipelines: vec![
            PipelineConfig { input: "/a.html".to_string(), output: "a.html".to_string() },
            PipelineConfig { input: "/b.html".to_string(), output: "b.html".to_string() },
        ],
    };
    let results: Vec<Result<Vec<u8>, SourceError>> = vec![Ok(b"A".to_vec()), Ok(b"B".to_vec())];
    let (writes, count) = plan_generation(&cfg, results);
    assert_eq!(count, 2);
    assert_eq!(writes.len(), 2);
    assert_eq!(writes[0].0, "/out/a.html");
    assert_eq!(writes[1].0, "/out/b.html");
    assert_eq!(writes[0].1, b"A".to_vec());
    assert_eq!(writes[1].1, b"B".to_vec());
}
