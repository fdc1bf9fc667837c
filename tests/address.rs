use bitaxe_cli::address::{resolve_address, resolve_host, ConfigFile};
use bitaxe_cli::error::CliError;

fn some(s: &str) -> Option<String> {
    Some(s.to_string())
}

#[test]
fn flag_wins_over_env_and_file() {
    let r = resolve_host(some("http://flag"), some("http://env"), some("http://file"));
    assert_eq!(r.unwrap(), "http://flag");
    let r = resolve_host(some("http://flag"), None, None);
    assert_eq!(r.unwrap(), "http://flag");
}

#[test]
fn env_wins_over_file_without_flag() {
    let r = resolve_host(None, some("http://env"), some("http://file"));
    assert_eq!(r.unwrap(), "http://env");
    let r = resolve_host(some(""), some("http://env"), None);
    assert_eq!(r.unwrap(), "http://env");
}

#[test]
fn file_used_last() {
    let r = resolve_host(None, some(""), some("http://file"));
    assert_eq!(r.unwrap(), "http://file");
}

#[test]
fn no_source_is_an_error() {
    assert!(matches!(resolve_host(None, None, None), Err(CliError::NoHostConfigured)));
    assert!(matches!(resolve_host(some(""), some(""), some("")), Err(CliError::NoHostConfigured)));
}

#[test]
fn address_is_not_validated() {
    let r = resolve_host(some("not a url"), None, None);
    assert_eq!(r.unwrap(), "not a url");
}

#[test]
fn no_host_message_names_every_source() {
    let m = CliError::NoHostConfigured.message();
    assert!(m.contains("--host"));
    assert!(m.contains("BITAXE_URL"));
    assert!(m.contains("config.toml"));
}

#[test]
fn malformed_file_only_matters_when_consulted() {
    let bad = || ConfigFile::Malformed("expected a string".to_string());
    assert_eq!(resolve_address(some("http://flag"), None, bad()).unwrap(), "http://flag");
    assert_eq!(resolve_address(None, some("http://env"), bad()).unwrap(), "http://env");
    match resolve_address(None, None, bad()) {
        Err(CliError::ConfigMalformed(c)) => assert_eq!(c, "expected a string"),
        other => panic!("unexpected {:?}", other),
    }
    let m = CliError::ConfigMalformed("expected a string".to_string()).message();
    assert!(m.contains("expected a string"));
}

#[test]
fn missing_or_empty_file_counts_as_absent() {
    assert!(matches!(resolve_address(None, None, ConfigFile::Missing), Err(CliError::NoHostConfigured)));
    assert!(matches!(
        resolve_address(None, None, ConfigFile::Loaded(None)),
        Err(CliError::NoHostConfigured)
    ));
    assert_eq!(
        resolve_address(None, None, ConfigFile::Loaded(some("http://file"))).unwrap(),
        "http://file"
    );
}
