use bitaxe_cli::command::{restart_outcome, Method, RESTART_CONFIRMATION};
use bitaxe_cli::error::{CliError, Command};

#[test]
fn restart_against_503_fails_with_code() {
    match restart_outcome(503) {
        Err(CliError::HttpStatusFailure(Command::Restart, 503)) => {}
        other => panic!("unexpected {:?}", other),
    }
    let m = CliError::HttpStatusFailure(Command::Restart, 503).message();
    assert_eq!(m, "Restart failed with status 503");
}

#[test]
fn restart_success_confirms() {
    assert_eq!(restart_outcome(200).unwrap(), RESTART_CONFIRMATION);
    assert_eq!(restart_outcome(204).unwrap(), RESTART_CONFIRMATION);
    assert!(restart_outcome(199).is_err());
    assert!(restart_outcome(300).is_err());
}

#[test]
fn requests_per_command() {
    assert_eq!(Command::Status.method(), Method::Get);
    assert_eq!(Command::Restart.method(), Method::Post);
    assert_eq!(Command::Status.request_url("http://10.0.0.5"), "http://10.0.0.5/api/system/info");
    assert_eq!(Command::Restart.request_url("http://10.0.0.5"), "http://10.0.0.5/api/system/restart");
}

#[test]
fn status_reply_codes() {
    assert!(Command::Status.check_reply(200).is_ok());
    assert!(Command::Status.check_reply(299).is_ok());
    match Command::Status.check_reply(404) {
        Err(e @ CliError::HttpStatusFailure(Command::Status, 404)) => {
            assert_eq!(e.message(), "Status request failed with status 404");
        }
        other => panic!("unexpected {:?}", other),
    }
}

#[test]
fn error_messages_carry_causes() {
    assert!(CliError::TransportFailure("timed out".to_string()).message().contains("timed out"));
    assert!(CliError::ResponseDecodeFailure("EOF".to_string()).message().contains("EOF"));
}

#[test]
fn messages_in_full() {
    assert_eq!(
        CliError::NoHostConfigured.message(),
        "No host configured. Use --host, set BITAXE_URL, or create ~/.config/bitaxe-cli/config.toml"
    );
    assert_eq!(
        CliError::ConfigMalformed("bad key".to_string()).message(),
        "Malformed configuration file: bad key"
    );
    assert_eq!(
        CliError::TransportFailure("timed out".to_string()).message(),
        "Request to the device failed: timed out"
    );
    assert_eq!(
        CliError::ResponseDecodeFailure("EOF".to_string()).message(),
        "Device reply is not valid JSON: EOF"
    );
    assert_eq!(
        CliError::HttpStatusFailure(Command::Status, 0).message(),
        "Status request failed with status 0"
    );
    assert_eq!(
        CliError::HttpStatusFailure(Command::Restart, 65535).message(),
        "Restart failed with status 65535"
    );
}
