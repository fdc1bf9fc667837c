//! The ways one invocation can fail.

use vstd::prelude::*;
use vstd::string::*;
use crate::text::{digits_of, push_digits, push_str, string_of};

verus! {

/// The operation sent to the device.
#[derive(Clone, Copy, Debug, PartialEq, Eq, Structural)]
pub enum Command {
    /// Read the device's system information.
    Status,
    /// Ask the device to restart.
    Restart,
}

/// Why an invocation failed. Every failure ends the invocation.
#[derive(Debug)]
pub enum CliError {
    /// None of the command-line flag, the environment variable and the
    /// configuration file gave a device address.
    NoHostConfigured,
    /// The configuration file exists but does not have the expected shape.
    ConfigMalformed(String),
    /// The request did not complete (connection, timeout, ...); holds the cause.
    TransportFailure(String),
    /// The device answered the command with a status outside `200..=299`.
    HttpStatusFailure(Command, u16),
    /// The status reply is not a JSON document; holds the cause.
    ResponseDecodeFailure(String),
}

/// How the message of a refused request begins, by operation.
pub open spec fn operation_text(command: Command) -> Seq<char> {
    match command {
        Command::Status => "Status request failed with status "@,
        Command::Restart => "Restart failed with status "@,
    }
}

/// The text shown for `e`: for a missing address, the three ways to give one;
/// for a refused request, the operation and the status code; otherwise a fixed
/// prefix and the cause.
pub open spec fn message_text(e: CliError) -> Seq<char> {
    match e {
        CliError::NoHostConfigured =>
            "No host configured. Use --host, set BITAXE_URL, or create ~/.config/bitaxe-cli/config.toml"@,
        CliError::ConfigMalformed(cause) => "Malformed configuration file: "@ + cause@,
        CliError::TransportFailure(cause) => "Request to the device failed: "@ + cause@,
        CliError::HttpStatusFailure(command, code) => operation_text(command) + digits_of(
            code as nat,
        ),
        CliError::ResponseDecodeFailure(cause) => "Device reply is not valid JSON: "@ + cause@,
    }
}

impl CliError {
    /// A one-line description for the user.
    pub fn message(&self) -> (r: String)
        ensures
            r@ == message_text(*self),
    {
        let mut out: Vec<char> = Vec::new();
        match self {
            CliError::NoHostConfigured => {
                push_str(
                    "No host configured. Use --host, set BITAXE_URL, or create ~/.config/bitaxe-cli/config.toml",
                    &mut out,
                );
            },
            CliError::ConfigMalformed(cause) => {
                push_str("Malformed configuration file: ", &mut out);
                push_str(cause.as_str(), &mut out);
            },
            CliError::TransportFailure(cause) => {
                push_str("Request to the device failed: ", &mut out);
                push_str(cause.as_str(), &mut out);
            },
            CliError::HttpStatusFailure(command, code) => {
                match command {
                    Command::Status => push_str("Status request failed with status ", &mut out),
                    Command::Restart => push_str("Restart failed with status ", &mut out),
                }
                push_digits(*code as u64, &mut out);
            },
            CliError::ResponseDecodeFailure(cause) => {
                push_str("Device reply is not valid JSON: ", &mut out);
                push_str(cause.as_str(), &mut out);
            },
        }
        assert(out@ =~= message_text(*self));
        string_of(&out)
    }
}

} // verus!
