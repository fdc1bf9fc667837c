//! What each command sends to the device and how its answer is judged.

use vstd::prelude::*;
use vstd::string::*;
use crate::error::{CliError, Command};

verus! {

/// The HTTP method of a request.
#[derive(Clone, Copy, Debug, PartialEq, Eq, Structural)]
pub enum Method {
    Get,
    Post,
}

/// The message shown once the device has accepted a restart.
pub const RESTART_CONFIRMATION: &'static str = "Restart command sent successfully.";

pub open spec fn api_path_spec(command: Command) -> Seq<char> {
    match command {
        Command::Status => "/api/system/info"@,
        Command::Restart => "/api/system/restart"@,
    }
}

pub open spec fn method_spec(command: Command) -> Method {
    match command {
        Command::Status => Method::Get,
        Command::Restart => Method::Post,
    }
}

/// Whether an HTTP status code reports success.
pub open spec fn is_success(code: u16) -> bool {
    200 <= code <= 299
}

impl Command {
    /// The API path that the command addresses.
    pub fn api_path(&self) -> (r: &'static str)
        ensures
            r@ == api_path_spec(*self),
    {
        match self {
            Command::Status => "/api/system/info",
            Command::Restart => "/api/system/restart",
        }
    }

    /// The HTTP method of the command's request.
    pub fn method(&self) -> (r: Method)
        ensures
            r == method_spec(*self),
    {
        match self {
            Command::Status => Method::Get,
            Command::Restart => Method::Post,
        }
    }

    /// The URL of the command's request on the device at `address`.
    pub fn request_url(&self, address: &str) -> (r: String)
        ensures
            r@ == address@ + api_path_spec(*self),
    {
        let base = String::from_str(address);
        base.concat(self.api_path())
    }

    /// The verdict on the device's answer `code`: success for a status in
    /// `200..=299`, else `HttpStatusFailure` with this command and the code.
    pub fn check_reply(&self, code: u16) -> (r: Result<(), CliError>)
        ensures
            is_success(code) <==> r is Ok,
            !is_success(code) ==> (r matches Err(CliError::HttpStatusFailure(c, k)) && c == *self
                && k == code),
    {
        if 200 <= code && code <= 299 {
            Ok(())
        } else {
            Err(CliError::HttpStatusFailure(*self, code))
        }
    }
}

/// What a restart prints once the device answered `code`: the confirmation on
/// success, else `HttpStatusFailure` with the code and no confirmation.
pub fn restart_outcome(code: u16) -> (r: Result<String, CliError>)
    ensures
        is_success(code) ==> (r matches Ok(m) && m@ == RESTART_CONFIRMATION@),
        !is_success(code) ==> (r matches Err(CliError::HttpStatusFailure(c, k)) && c
            == Command::Restart && k == code),
{
    match Command::Restart.check_reply(code) {
        Ok(()) => Ok(String::from_str(RESTART_CONFIRMATION)),
        Err(e) => Err(e),
    }
}

} // verus!
