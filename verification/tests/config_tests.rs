use hypergate::config::{
    validate_runtime_config, ConfigLoader, ConfigManager, ConfigValidator, ConfigValidatorChain, DefaultConfigValidator,
    FileConfig, FileDrainConfig, FileServerConfig, FileVersionConfig, LoadFailure, ReloadTrigger, RuntimeConfig,
    StaticConfigLoader, TomlConfigLoader, VersionConfig, VersionTable,
};
use hypergate::net::{parse_network, trusted_peer, PeerAddress};
use hypergate::request::ConfigRevision;
use hypergate::version::VersionId;

const CONFIG: &str = r#"
default_version = "blue"

[server]
listen = "127.0.0.1:8088"
trusted_proxies = ["127.0.0.0/8"]

[drain]
timeout_seconds = 900
force_close_streams = true

[versions.blue]
endpoint = "http://127.0.0.1:9101"
health = "http://127.0.0.1:9101/ready"
"#;

fn opt_u64(table: Option<&toml::Table>, key: &str) -> Option<u64> {
    table.and_then(|t| t.get(key)).and_then(|v| v.as_integer()).map(|v| v as u64)
}

/// Reads TOML text into the file schema the library maps.
fn file_config(text: &str) -> FileConfig {
    let root: toml::Table = text.parse().expect("config should parse");
    let server = root.get("server").and_then(|v| v.as_table());
    let drain = root.get("drain").and_then(|v| v.as_table());
    let mut file_server = FileServerConfig::empty();
    file_server.listen = server.and_then(|t| t.get("listen")).and_then(|v| v.as_str()).map(str::to_owned);
    file_server.max_connections = opt_u64(server, "max_connections").map(|v| v as usize);
    file_server.header_read_timeout_ms = opt_u64(server, "header_read_timeout_ms");
    file_server.version_connect_timeout_ms = opt_u64(server, "version_connect_timeout_ms");
    file_server.version_response_header_timeout_ms = opt_u64(server, "version_response_header_timeout_ms");
    file_server.version_health_timeout_ms = opt_u64(server, "version_health_timeout_ms");
    file_server.shutdown_timeout_seconds = opt_u64(server, "shutdown_timeout_seconds");
    if let Some(list) = server.and_then(|t| t.get("trusted_proxies")).and_then(|v| v.as_array()) {
        file_server.trusted_proxies = list.iter().filter_map(|v| v.as_str().map(str::to_owned)).collect();
    }
    let mut file_drain = FileDrainConfig::empty();
    file_drain.timeout_seconds = opt_u64(drain, "timeout_seconds");
    file_drain.force_close_streams = drain.and_then(|t| t.get("force_close_streams")).and_then(|v| v.as_bool());
    let mut versions = Vec::new();
    if let Some(table) = root.get("versions").and_then(|v| v.as_table()) {
        for (id, entry) in table {
            let entry = entry.as_table().expect("version table");
            versions.push((
                id.clone(),
                FileVersionConfig {
                    endpoint: entry["endpoint"].as_str().expect("endpoint").to_owned(),
                    health: entry["health"].as_str().expect("health").to_owned(),
                },
            ));
        }
    }
    FileConfig {
        default_version: root["default_version"].as_str().expect("default version").to_owned(),
        server: file_server,
        drain: file_drain,
        versions,
    }
}

#[test]
fn toml_config_maps_runtime_contract() {
    let file = file_config(CONFIG);
    let runtime = file.into_runtime(ConfigRevision { value: 7 }).expect("runtime should build");
    assert_eq!(runtime.revision.value, 7);
    assert_eq!(runtime.active_version.value.as_str(), "blue");
    assert_eq!(runtime.server.listen, "127.0.0.1:8088");
    assert_eq!(runtime.server.trusted_proxies.len(), 1);
    assert_eq!(runtime.drain.timeout_secs, 900);
    assert!(runtime.drain.force_close_streams);
    assert_eq!(runtime.versions.len(), 1);
}

#[test]
fn invalid_trusted_proxy_rejects_config() {
    let source = CONFIG.replace("127.0.0.0/8", "not-a-network");
    let file = file_config(&source);
    assert!(file.into_runtime(ConfigRevision::initial()).is_err());
}

#[test]
fn invalid_trusted_proxy_names_the_entry() {
    let source = CONFIG.replace("127.0.0.0/8", "not-a-network");
    let error = match file_config(&source).into_runtime(ConfigRevision::initial()) {
        Ok(_) => panic!("an unparsable proxy must refuse the file"),
        Err(error) => error,
    };
    assert_eq!(error.message, "invalid trusted proxy not-a-network: invalid IP address syntax");
}

#[test]
fn missing_values_take_their_defaults() {
    let file = file_config(
        r#"
default_version = "green"
[versions.green]
endpoint = "http://127.0.0.1:9200"
health = "http://127.0.0.1:9200/ready"
"#,
    );
    let runtime = file.into_runtime(ConfigRevision::initial()).expect("defaults build");
    assert_eq!(runtime.revision.value, 1);
    assert_eq!(runtime.server.listen, "127.0.0.1:8080");
    assert_eq!(runtime.server.max_connections, 4096);
    assert_eq!(runtime.server.header_read_timeout_ms, 30_000);
    assert_eq!(runtime.server.version_connect_timeout_ms, 5_000);
    assert_eq!(runtime.server.version_response_header_timeout_ms, 300_000);
    assert_eq!(runtime.server.version_health_timeout_ms, 5_000);
    assert_eq!(runtime.server.shutdown_timeout_secs, 1800);
    assert!(runtime.server.trusted_proxies.is_empty());
    assert_eq!(runtime.drain.timeout_secs, 1800);
    assert!(!runtime.drain.force_close_streams);
    let green = runtime.versions.get(&VersionId::new("green")).expect("green configured");
    assert_eq!(green.endpoint, "http://127.0.0.1:9200");
    assert_eq!(green.health, "http://127.0.0.1:9200/ready");
}

#[test]
fn later_version_table_for_same_id_wins() {
    let mut file = file_config(CONFIG);
    file.versions.push((
        "blue".to_owned(),
        FileVersionConfig { endpoint: "http://127.0.0.1:9999".to_owned(), health: "http://127.0.0.1:9999/h".to_owned() },
    ));
    let runtime = file.into_runtime(ConfigRevision::initial()).expect("runtime");
    assert_eq!(runtime.versions.len(), 1);
    assert_eq!(runtime.versions.get(&VersionId::new("blue")).expect("blue").endpoint, "http://127.0.0.1:9999");
}

#[test]
fn parse_network_reads_cidr_text() {
    let v4 = parse_network("127.0.0.0/8").expect("v4 network");
    assert!(!v4.is_v6);
    assert_eq!(v4.address, 0x7f00_0000);
    assert_eq!(v4.prefix_len, 8);
    let v6 = parse_network("::1/128").expect("v6 network");
    assert!(v6.is_v6);
    assert_eq!(v6.address, 1);
    assert_eq!(v6.prefix_len, 128);
    assert!(parse_network("not-a-network").is_none());
    assert!(parse_network("10.0.0.0/33").is_none());
}

#[test]
fn trusted_peer_checks_network_prefix() {
    let nets = vec![parse_network("127.0.0.0/8").expect("network")];
    let inside = PeerAddress { is_v6: false, address: 0x7f00_0001 };
    let outside = PeerAddress { is_v6: false, address: 0xc633_6408 };
    let other_family = PeerAddress { is_v6: true, address: 0x7f00_0001 };
    assert!(trusted_peer(&nets, &inside));
    assert!(!trusted_peer(&nets, &outside));
    assert!(!trusted_peer(&nets, &other_family));
    assert!(!trusted_peer(&Vec::new(), &inside));
}

fn version(endpoint: &str) -> VersionConfig {
    VersionConfig { endpoint: endpoint.to_owned(), health: format!("{endpoint}/health") }
}

#[test]
fn version_table_insert_replace_remove() {
    let mut table = VersionTable::new();
    table.insert(VersionId::new("a"), version("http://a"));
    table.insert(VersionId::new("b"), version("http://b"));
    table.insert(VersionId::new("a"), version("http://a2"));
    assert_eq!(table.len(), 2);
    assert_eq!(table.get(&VersionId::new("a")).expect("a").endpoint, "http://a2");
    let ids: Vec<String> = table.ids().into_iter().map(|id| id.value).collect();
    assert_eq!(ids, vec!["a".to_owned(), "b".to_owned()]);
    table.remove(&VersionId::new("a"));
    assert!(!table.contains_key(&VersionId::new("a")));
    assert!(table.contains_key(&VersionId::new("b")));
    assert_eq!(table.len(), 1);
}

fn valid_config() -> RuntimeConfig {
    let mut config = RuntimeConfig::minimal();
    config.versions.insert(VersionId::new("v1"), version("http://127.0.0.1:9000"));
    config
}

#[test]
fn validator_reports_each_error() {
    assert!(validate_runtime_config(&valid_config()).is_ok());

    let mut empty_active = valid_config();
    empty_active.active_version = VersionId::new("");
    assert_eq!(validate_runtime_config(&empty_active).unwrap_err().message, "active version is empty");

    let mut unknown = valid_config();
    unknown.active_version = VersionId::new("v9");
    assert_eq!(validate_runtime_config(&unknown).unwrap_err().message, "active version is not configured");

    let mut empty_id = valid_config();
    empty_id.versions.insert(VersionId::new(""), version("http://x"));
    assert_eq!(validate_runtime_config(&empty_id).unwrap_err().message, "version id is empty");

    let mut empty_endpoint = valid_config();
    empty_endpoint.versions.insert(VersionId::new("v2"), VersionConfig { endpoint: String::new(), health: String::new() });
    assert_eq!(validate_runtime_config(&empty_endpoint).unwrap_err().message, "version endpoint is empty");
}

#[test]
fn validator_chain_runs_every_validator() {
    let mut chain = ConfigValidatorChain::new();
    assert!(chain.validate(&RuntimeConfig::minimal()).is_ok());
    chain.push(DefaultConfigValidator);
    assert!(chain.validate(&RuntimeConfig::minimal()).is_err());
    assert!(chain.validate(&valid_config()).is_ok());
}

#[test]
fn manager_reload_applies_valid_config_and_bumps_revision() {
    let mut next = valid_config();
    next.drain.timeout_secs = 5;
    let loader = StaticConfigLoader { template: next };
    let mut manager = ConfigManager::new(valid_config(), loader, DefaultConfigValidator);
    assert_eq!(manager.revision().value, 1);
    let reloaded = manager.reload(ReloadTrigger::Command { source: "test".to_owned() }).expect("reload");
    assert_eq!(reloaded.drain.timeout_secs, 5);
    assert_eq!(manager.revision().value, 2);
    assert_eq!(manager.snapshot().drain.timeout_secs, 5);
}

#[test]
fn manager_refuses_invalid_config() {
    let loader = StaticConfigLoader { template: RuntimeConfig::minimal() };
    let mut manager = ConfigManager::new(valid_config(), loader, DefaultConfigValidator);
    assert!(manager.reload(ReloadTrigger::Command { source: "test".to_owned() }).is_err());
    assert_eq!(manager.revision().value, 1);
    assert_eq!(manager.snapshot().versions.len(), 1);
    assert!(manager.apply(RuntimeConfig::minimal()).is_err());
    assert_eq!(manager.revision().value, 1);
}

#[test]
fn static_loader_returns_its_template() {
    let loader = StaticConfigLoader { template: 41u32 };
    assert_eq!(loader.load(ConfigRevision { value: 3 }).expect("load"), 41);
}

#[test]
fn toml_loader_words_read_and_parse_failures() {
    let loader = TomlConfigLoader::new("gate.toml".to_owned());
    assert_eq!(loader.path(), "gate.toml");
    let read = loader.load_file(Err(LoadFailure::Read("missing".to_owned())), ConfigRevision::initial());
    assert_eq!(read.unwrap_err().message, "read config gate.toml failed: missing");
    let parse = loader.load_file(Err(LoadFailure::Parse("bad key".to_owned())), ConfigRevision::initial());
    assert_eq!(parse.unwrap_err().message, "parse config gate.toml failed: bad key");
    let ok = loader.load_file(Ok(file_config(CONFIG)), ConfigRevision { value: 4 }).expect("mapped");
    assert_eq!(ok.revision.value, 4);
}

#[test]
fn default_config_runs_two_local_versions() {
    let config = hypergate::config::default_config();
    assert_eq!(config.active_version.value, "v1");
    assert_eq!(config.versions.len(), 2);
    let v2 = config.versions.get(&VersionId::new("v2")).expect("v2");
    assert_eq!(v2.endpoint, "http://127.0.0.1:9102");
    assert_eq!(v2.health, "http://127.0.0.1:9102/health");
    assert!(validate_runtime_config(&config).is_ok());
}

#[test]
fn install_loaded_applies_only_accepted_configs() {
    let loader = StaticConfigLoader { template: valid_config() };
    let mut manager = ConfigManager::new(valid_config(), loader, DefaultConfigValidator);
    let failed = manager.install_loaded(Err(hypergate::error::HyperError::new("disk gone")), ConfigRevision { value: 2 });
    assert_eq!(failed.unwrap_err().message, "disk gone");
    assert_eq!(manager.revision().value, 1);
    let refused = manager.install_loaded(Ok(RuntimeConfig::minimal()), ConfigRevision { value: 2 });
    assert_eq!(refused.unwrap_err().message, "active version is not configured");
    assert_eq!(manager.snapshot().versions.len(), 1);
    let mut next = valid_config();
    next.drain.timeout_secs = 9;
    manager.install_loaded(Ok(next), ConfigRevision { value: 7 }).expect("accepted");
    assert_eq!(manager.revision().value, 7);
    assert_eq!(manager.snapshot().drain.timeout_secs, 9);
}

#[test]
fn validator_chain_stops_at_first_refusal() {
    let mut chain = ConfigValidatorChain::new();
    chain.push(DefaultConfigValidator);
    chain.push(DefaultConfigValidator);
    let error = chain.validate(&RuntimeConfig::minimal()).unwrap_err();
    assert_eq!(error.message, "active version is not configured");
}
