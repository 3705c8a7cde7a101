use hypergate::config::{RuntimeConfig, VersionConfig};
use hypergate::control::ControlError;
use hypergate::endpoint::{build_endpoint_uri, prepare_endpoint};
use hypergate::error::HyperError;
use hypergate::extension::{ExtensionDescriptor, ExtensionRegistry};
use hypergate::management::{
    admin_listen_text, authorize, control_error_reply, credential_from_env_value, is_loopback, parse_version, AdminCredential,
    AdminReply, DEFAULT_ADMIN_LISTEN,
};
use hypergate::net::PeerAddress;
use hypergate::options::{invalid_listen_message, version_app_listen, GatewayMode, GatewayOptions};
use hypergate::runtime::VersionRuntime;
use hypergate::text::{
    char_count, find_text, join_strings, pad_left_text, pad_right_text, repeat_text, split_whitespace_text, substring,
    text_ends_with, text_lt, trim_text, u64_to_text,
};
use hypergate::version::{VersionId, VersionState};
use hypergate::proxy::connect_timeout_option;
use hypergate::views::{
    format_check_result, format_config, format_status, start_output, status_after_control, totals_fit, version_summary,
    versions_table,
};

fn args(text: &str) -> Vec<String> {
    text.split_whitespace().map(str::to_owned).collect()
}

#[test]
fn gateway_options_select_mode_and_paths() {
    let default = GatewayOptions::parse(Vec::new()).expect("defaults");
    assert!(default.mode == GatewayMode::Start);
    assert_eq!(default.config_path, "hypergate.toml");
    assert_eq!(default.state_path, "hypergate.state.json");
    let check = GatewayOptions::parse(args("check --config a.toml")).expect("check");
    assert!(check.mode == GatewayMode::Check);
    assert_eq!(check.config_path, "a.toml");
    let flags = GatewayOptions::parse(args("--state s.json --config c.toml --config d.toml")).expect("flags");
    assert!(flags.mode == GatewayMode::Start);
    assert_eq!(flags.config_path, "d.toml");
    assert_eq!(flags.state_path, "s.json");
    assert!(GatewayOptions::parse(args("--help")).expect("help").mode == GatewayMode::Help);
    assert_eq!(GatewayOptions::parse(args("serve")).err().expect("mode").message, "expected start, check, or help");
    assert_eq!(GatewayOptions::parse(args("check --state s")).err().expect("state").message, "unknown argument: --state");
    assert_eq!(GatewayOptions::parse(args("start --config")).err().expect("path").message, "--config requires a path");
    assert_eq!(GatewayOptions::help_lines()[2], "  hypergate check [--config <path>]");
}

#[test]
fn version_app_accepts_only_listen() {
    assert_eq!(version_app_listen(Vec::new()).expect("none"), None);
    assert_eq!(version_app_listen(args("--listen 127.0.0.1:9 --listen 0.0.0.0:1")).expect("last"), Some("0.0.0.0:1".to_owned()));
    assert_eq!(version_app_listen(args("--listen")).err().expect("missing").message, "missing --listen value");
    assert_eq!(version_app_listen(args("--port 1")).err().expect("unknown").message, "unknown version app argument: --port");
    assert_eq!(invalid_listen_message("bad").message, "invalid --listen value: bad");
}

#[test]
fn admin_credential_and_authorization() {
    let credential = AdminCredential::new("s3cret").expect("credential");
    assert!(credential.matches("s3cret"));
    assert!(!credential.matches("s3cre"));
    assert!(!credential.matches("s3cret!"));
    assert!(authorize(Some("Bearer s3cret"), &credential));
    assert!(!authorize(Some("bearer s3cret"), &credential));
    assert!(!authorize(Some("Bearer other"), &credential));
    assert!(!authorize(None, &credential));
    let long = "a".repeat(1025);
    assert_eq!(AdminCredential::new(&long).err().expect("long").message, "HYPERGATE_ADMIN_TOKEN exceeds 1024 bytes");
    assert_eq!(
        AdminCredential::new("has space").err().expect("space").message,
        "HYPERGATE_ADMIN_TOKEN must contain visible ASCII characters only"
    );
}

#[test]
fn admin_environment_values() {
    assert!(credential_from_env_value(None).expect("unset").is_none());
    let credential = credential_from_env_value(Some("  tok  ".to_owned())).expect("set").expect("some");
    assert!(credential.matches("tok"));
    assert_eq!(credential_from_env_value(Some("   ".to_owned())).err().expect("blank").message, "HYPERGATE_ADMIN_TOKEN is empty");
    assert_eq!(admin_listen_text(None), DEFAULT_ADMIN_LISTEN);
    assert_eq!(admin_listen_text(Some(" 127.0.0.1:7000 ".to_owned())), "127.0.0.1:7000");
    assert!(is_loopback(&PeerAddress { is_v6: false, address: 0x7f00_0001 }));
    assert!(is_loopback(&PeerAddress { is_v6: true, address: 1 }));
    assert!(!is_loopback(&PeerAddress { is_v6: false, address: 0x0a00_0001 }));
    assert_eq!(parse_version(" v2 ".to_owned()).expect("version").value, "v2");
    assert!(parse_version("  ".to_owned()).is_none());
}

#[test]
fn admin_replies_are_stable() {
    assert_eq!(AdminReply::Unauthorized.status(), 401);
    assert_eq!(AdminReply::Unauthorized.message(), "unauthorized");
    assert_eq!(AdminReply::VersionRequired.status(), 400);
    assert_eq!(AdminReply::NotFound.message(), "not found");
    assert_eq!(AdminReply::MethodNotAllowed.status(), 405);
    assert!(control_error_reply(&ControlError::Conflict("busy".to_owned())) == AdminReply::Rejected);
    assert!(control_error_reply(&ControlError::Internal(HyperError::new("disk"))) == AdminReply::InternalError);
    assert_eq!(AdminReply::Rejected.status(), 409);
    assert_eq!(AdminReply::InternalError.message(), "internal server error");
}

#[test]
fn endpoint_is_split_once_and_rebuilt() {
    let endpoint = prepare_endpoint("http://127.0.0.1:9101/api/").expect("endpoint");
    assert_eq!(endpoint.scheme, "http");
    assert_eq!(endpoint.authority, "127.0.0.1:9101");
    assert_eq!(endpoint.base_path, "/api");
    assert_eq!(build_endpoint_uri(&endpoint, Some("/x?y=1")).expect("uri"), "http://127.0.0.1:9101/api/x?y=1");
    assert_eq!(build_endpoint_uri(&endpoint, None).expect("uri"), "http://127.0.0.1:9101/api/");
    let root = prepare_endpoint("http://127.0.0.1:9101").expect("root");
    assert_eq!(root.base_path, "");
    assert_eq!(build_endpoint_uri(&root, Some("/health")).expect("uri"), "http://127.0.0.1:9101/health");
    assert_eq!(prepare_endpoint("/relative").err().expect("scheme").message, "version endpoint missing scheme");
    assert!(prepare_endpoint("http://bad host/").err().expect("invalid").message.starts_with("invalid version endpoint: "));
}

fn named(id: &'static str) -> ExtensionDescriptor {
    ExtensionDescriptor::new(id, "test", "test extension")
}

#[test]
fn extension_registry_refuses_duplicate_ids() {
    let mut registry = ExtensionRegistry::new();
    assert!(registry.is_empty());
    registry.register(named("a")).expect("first");
    registry.register(named("b")).expect("second");
    let error = registry.register(named("a")).err().expect("duplicate");
    assert_eq!(error.message, "extension already registered: a");
    assert_eq!(registry.len(), 2);
    assert_eq!(registry.find("b").expect("b").id, "b");
    assert!(registry.find("c").is_none());
}

fn config() -> RuntimeConfig {
    let mut config = RuntimeConfig::minimal();
    config.versions.insert(
        VersionId::new("v1"),
        VersionConfig { endpoint: "http://e".to_owned(), health: "http://h".to_owned() },
    );
    config
}

#[test]
fn config_views_render_exactly() {
    let expected = [
        "Config",
        "  listen         127.0.0.1:8080",
        "  active         v1",
        "  revision       1",
        "  drain_timeout  1800s",
        "  force_close    false",
        "",
        "Versions",
        "┌─────────┬──────────┬──────────┐",
        "│ version │ endpoint │ health   │",
        "├─────────┼──────────┼──────────┤",
        "│ v1      │ http://e │ http://h │",
        "└─────────┴──────────┴──────────┘",
    ]
    .join("\n");
    assert_eq!(format_config(&config()), expected);
    assert_eq!(format_check_result(&config()).expect("valid"), "Config Check\n  result  ok");
    assert_eq!(format_check_result(&RuntimeConfig::minimal()).err().expect("invalid").message, "active version is not configured");
    assert_eq!(start_output("127.0.0.1:8080", &config()), "HyperGate started  listen=http://127.0.0.1:8080  active=v1  versions=1");
}

#[test]
fn status_views_summarise_snapshots() {
    let mut v1 = VersionRuntime::new(VersionId::new("v1"));
    v1.activate();
    let _lease = v1.lease(hypergate::request::RequestKind::Stream).expect("lease");
    let mut v2 = VersionRuntime::new(VersionId::new("v2"));
    v2.activate();
    v2.drain(10);
    let snapshots = vec![v1.snapshot(100), v2.snapshot(100), VersionRuntime::new(VersionId::new("v3")).snapshot(100)];
    let summary = version_summary(&snapshots);
    assert_eq!(summary.total, 3);
    assert_eq!(summary.draining, 1);
    assert_eq!(summary.stopped, 1);
    assert_eq!(summary.active_requests, 1);
    assert_eq!(summary.active_streams, 1);
    let status = format_status(&config(), &snapshots);
    assert!(status.starts_with("Gateway Status\nSummary\n"));
    assert!(status.contains("│ v1     │        1 │        3 │        1 │       1 │        1 │       1 │"));
    let table = versions_table(&config(), &snapshots);
    assert_eq!(table.rows.len(), 3);
    assert_eq!(table.rows[0], vec!["v1", "active", "http://e", "http://h", "1", "1", "1", "-"]);
    assert_eq!(table.rows[1][1], VersionState::Draining.as_str());
    assert_eq!(table.rows[1][2], "-");
    assert_eq!(table.rows[1][7], "90s");
}

#[test]
fn drain_cell_marks_timeouts() {
    let mut config = config();
    config.drain.timeout_secs = 60;
    let mut v = VersionRuntime::new(VersionId::new("v1"));
    v.activate();
    v.drain(0);
    let table = versions_table(&config, &vec![v.snapshot(60)]);
    assert_eq!(table.rows[0][7], "60s timeout");
}

#[test]
fn text_helpers() {
    assert_eq!(u64_to_text(0), "0");
    assert_eq!(u64_to_text(18_446_744_073_709_551_615), "18446744073709551615");
    assert_eq!(pad_right_text("ab", 4), "ab  ");
    assert_eq!(pad_left_text("ab", 4), "  ab");
    assert_eq!(pad_left_text("abcdef", 4), "abcdef");
    assert_eq!(repeat_text("─", 3), "───");
    assert_eq!(join_strings(&args("a b c"), ", "), "a, b, c");
    assert_eq!(trim_text("  x y \t"), "x y");
    assert_eq!(split_whitespace_text(" a  b\tc "), args("a b c"));
    assert_eq!(find_text("abcabc", "ca"), Some(2));
    assert_eq!(find_text("abc", "x"), None);
    assert_eq!(substring("héllo", 1, 3), "él");
    assert_eq!(char_count("héllo"), 5);
    assert!(text_ends_with("state.json", ".json"));
    assert!(text_lt("v1", "v10"));
    assert!(!text_lt("v2", "v10"));
}

#[test]
fn status_after_control_checks_totals() {
    let mut v1 = VersionRuntime::new(VersionId::new("v1"));
    v1.activate();
    let _lease = v1.lease(hypergate::request::RequestKind::Unary).expect("lease");
    let snapshots = vec![v1.snapshot(0)];
    assert!(totals_fit(&snapshots));
    let output = status_after_control("active=v1".to_owned(), &config(), &snapshots).expect("fits");
    assert_eq!(output.summary, "active=v1");
    assert_eq!(output.rendered, format_status(&config(), &snapshots));
    let mut huge = v1.snapshot(0);
    huge.active_requests = u64::MAX;
    let overflowing = vec![huge, v1.snapshot(0)];
    assert!(!totals_fit(&overflowing));
    let error = status_after_control("x".to_owned(), &config(), &overflowing).err().expect("overflow");
    assert_eq!(error.message, "active connection totals overflow");
}

#[test]
fn connect_timeout_zero_disables() {
    assert_eq!(connect_timeout_option(0), None);
    assert_eq!(connect_timeout_option(250), Some(250));
}
