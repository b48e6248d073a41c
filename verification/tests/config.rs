use tlsproxy::dataplane::http::static_files::Encoding;
use tlsproxy::config::{
    parse_size, AccountingConfig, AdminServerConfig, Compression, Config, DnsConfig, Listener, ListenerMode,
    LocalCaConfig, Options, Policy, Rules,
};

#[test]
fn parse_size_accepts_bytes_and_binary_suffixes() {
    assert_eq!(parse_size("123").unwrap(), 123);
    assert_eq!(parse_size("2KiB").unwrap(), 2 * 1024);
    assert_eq!(parse_size("18MiB").unwrap(), 18 * 1024 * 1024);
    assert_eq!(parse_size("1GiB").unwrap(), 1024 * 1024 * 1024);
    assert_eq!(parse_size(" 10 MiB ").unwrap(), 10 * 1024 * 1024);
    assert_eq!(parse_size("18mib").unwrap(), 18 * 1024 * 1024);
    assert!(parse_size("abc").is_err());
    assert!(parse_size("10MB").is_err());
    assert!(parse_size("").is_err());
}

#[test]
fn sizes_that_do_not_fit_are_refused() {
    assert!(parse_size("18446744073709551615").is_ok());
    assert!(parse_size("18446744073709551616").is_err());
    assert!(parse_size("17179869184GiB").is_err());
}

fn listener(policy: Policy) -> Listener {
    Listener {
        bind: "127.0.0.1:0".into(),
        target: None,
        target_port: 443,
        policy,
        rules: Rules {
            static_hosts: vec!["Example.COM".into()],
            patterns: vec![r"^api\d+\.example$".into()],
        },
        max_idle_time_ms: None,
        mode: ListenerMode::Passthrough,
        upstream_tls: false,
    }
}

#[test]
fn listener_patterns_match_case_insensitively() {
    let mut web = listener(Policy::ALLOW);
    web.rules = Rules {
        static_hosts: Vec::new(),
        patterns: vec![r"^api\d+\.example$".into(), r"(?i)^legacy\.example$".into()],
    };
    assert!(web.is_allowed("API7.EXAMPLE"));
    assert!(web.is_allowed("Legacy.Example"));
    assert!(!web.is_allowed("other.example"));
}

#[test]
fn acl_static_hosts_ignore_case_and_regexes_are_applied() {
    let allow = listener(Policy::ALLOW);
    assert!(allow.is_allowed("example.com"));
    assert!(allow.is_allowed("api42.example"));
    assert!(!allow.is_allowed("other.example"));

    let deny = listener(Policy::DENY);
    assert!(!deny.is_allowed("EXAMPLE.COM"));
    assert!(!deny.is_allowed("api7.example"));
    assert!(deny.is_allowed("other.example"));
    assert!(deny.match_host("EXAMPLE.com"));
}

fn config(accounting: Option<AccountingConfig>) -> Config {
    Config {
        listeners: vec![("web".to_string(), listener(Policy::DENY))],
        options: Options::default(),
        dns: DnsConfig { exact: Vec::new(), suffix: Vec::new(), regex: Vec::new() },
        ca: None,
        admin_server: None,
        accounting,
    }
}

fn accounting() -> AccountingConfig {
    AccountingConfig { enabled: true, log_file: "cdr.log".into(), ..AccountingConfig::default() }
}

#[test]
fn accounting_block_parses_with_defaults() {
    let accounting = accounting();
    assert!(accounting.enabled);
    assert_eq!(accounting.log_file, "cdr.log");
    assert_eq!(accounting.rotate_size, "100MiB");
    assert_eq!(accounting.rotate_size_bytes().unwrap(), 100 * 1024 * 1024);
    assert_eq!(accounting.max_keep, 10);
    assert_eq!(accounting.compress_after, 3);
    assert_eq!(accounting.compression, Compression::Zstd);
}

#[test]
fn accounting_enabled_requires_log_file_and_valid_rotate_size() {
    let missing = AccountingConfig { log_file: String::new(), ..accounting() };
    assert!(config(Some(missing)).validate().is_err(), "missing log_file must fail");
    let banana = AccountingConfig { rotate_size: "banana".into(), ..accounting() };
    assert!(config(Some(banana)).validate().is_err(), "invalid rotate_size must fail");
    let none_kept = AccountingConfig { max_keep: 0, ..accounting() };
    assert!(config(Some(none_kept)).validate().is_err(), "max_keep 0 must fail");
    let gzip = AccountingConfig { compression: Compression::Gzip, ..accounting() };
    assert!(config(Some(gzip)).validate().is_ok(), "gzip compression must pass");
    let disabled = AccountingConfig { enabled: false, rotate_size: "banana".into(), ..AccountingConfig::default() };
    assert!(config(Some(disabled)).validate().is_ok(), "a disabled block is never validated");
}

#[test]
fn accounting_absent_is_none_and_old_configs_still_load() {
    let config = config(None);
    assert!(config.accounting.is_none());
    assert!(config.validate().is_ok());
}

#[test]
fn a_broken_pattern_fails_validation() {
    let mut broken = config(None);
    broken.listeners[0].1.rules.patterns.push("(".into());
    let cause = broken.validate().unwrap_err();
    assert!(cause.starts_with("invalid regex `(`: "));
    assert!(cause.contains("unclosed group"));
    assert_eq!(broken.listeners[0].1.rules.check_patterns(), Err(cause));
}

#[test]
fn defaults_are_those_of_an_old_configuration() {
    assert_eq!(ListenerMode::default(), ListenerMode::Passthrough);
    assert_eq!(Compression::default(), Compression::Zstd);
    assert_eq!(Compression::Zstd.extension(), Some("zst"));
    assert_eq!(Compression::Gzip.extension(), Some("gz"));
    assert_eq!(Compression::Plain.extension(), None);
    assert_eq!(Compression::Zstd.encoding(), Encoding::Zstd);
    assert_eq!(Compression::Gzip.encoding(), Encoding::Gzip);
    assert_eq!(Compression::Plain.encoding(), Encoding::Identity);
    let ca = LocalCaConfig::default();
    assert_eq!((ca.ca_cert.as_str(), ca.ca_key.as_str()), ("local_ca/CA.pem", "local_ca/CA.key"));
    assert_eq!(AdminServerConfig::default().bind_port, Some(48888));
    let mut l = listener(Policy::ALLOW);
    l.max_idle_time_ms = Some(0);
    assert_eq!(l.max_idle_time_ms(), u64::MAX);
    l.max_idle_time_ms = Some(5);
    assert_eq!(l.max_idle_time_ms(), 5);
}
