//! What the host is told, and what the answers of the service's small calls
//! amount to.

use vstd::prelude::*;

verus! {

/// The name of the header that carries the session token.
pub fn authorization_header() -> (r: &'static str)
    ensures
        r@ == "authorization"@,
{
    "authorization"
}

/// The answer of the service to an access token.
#[derive(Debug, PartialEq, Eq)]
pub struct AuthResponse {
    pub success: bool,
    /// The session token, which goes into the `authorization` header of the
    /// calls that follow, as it is.
    pub token: String,
    pub quota: i32,
}

/// What the host is told.
#[derive(Debug, PartialEq, Eq)]
pub enum HostEvent {
    HealthStatus(bool),
    Quota(Option<i32>),
    /// Progress in hundredths of a percent.
    DetectProgress(u32),
    DetectComplete,
    DetectError(String),
}

impl HostEvent {
    /// The name under which the host listens for the event.
    pub open spec fn name_text(&self) -> Seq<char> {
        match self {
            HostEvent::HealthStatus(_) => "health-status"@,
            HostEvent::Quota(_) => "quota"@,
            HostEvent::DetectProgress(_) => "detect-progress"@,
            HostEvent::DetectComplete => "detect-complete"@,
            HostEvent::DetectError(_) => "detect-error"@,
        }
    }

    pub fn name(&self) -> (r: &'static str)
        ensures
            r@ == self.name_text(),
    {
        match self {
            HostEvent::HealthStatus(_) => "health-status",
            HostEvent::Quota(_) => "quota",
            HostEvent::DetectProgress(_) => "detect-progress",
            HostEvent::DetectComplete => "detect-complete",
            HostEvent::DetectError(_) => "detect-error",
        }
    }
}

/// Judges the answer to the access token: `reply` is `None` where the call
/// failed. The token is accepted exactly where the call came back and says
/// so.
pub fn auth(reply: Option<AuthResponse>) -> (r: Option<AuthResponse>)
    ensures
        r == match reply {
            Some(a) => if a.success {
                Some(a)
            } else {
                None
            },
            None => None,
        },
{
    match reply {
        Some(a) => if a.success {
            Some(a)
        } else {
            None
        },
        None => None,
    }
}

/// The quota that is left, where the channel stands and the token is
/// accepted.
pub fn get_auth(connected: bool, reply: Option<AuthResponse>) -> (r: Option<i32>)
    ensures
        r == match reply {
            Some(a) => if connected && a.success {
                Some(a.quota)
            } else {
                None
            },
            None => None,
        },
{
    if !connected {
        return None;
    }
    match auth(reply) {
        Some(a) => Some(a.quota),
        None => None,
    }
}

/// What the host is told of the quota.
pub fn check_quota(connected: bool, reply: Option<AuthResponse>) -> (r: HostEvent)
    ensures
        r == HostEvent::Quota(
            match reply {
                Some(a) => if connected && a.success {
                    Some(a.quota)
                } else {
                    None
                },
                None => None,
            },
        ),
{
    HostEvent::Quota(get_auth(connected, reply))
}

/// Judges the answer to the question of health: `reply` is `None` where
/// the call failed. The service is in health exactly where the call came
/// back and says so.
pub fn health(reply: Option<bool>) -> (r: bool)
    ensures
        r == (reply == Some(true)),
{
    match reply {
        Some(status) => status,
        None => false,
    }
}

/// The service is in health where the channel stands, the call came back,
/// and it says so.
pub fn get_health(connected: bool, reply: Option<bool>) -> (r: bool)
    ensures
        r == (connected && reply == Some(true)),
{
    connected && health(reply)
}

/// What the host is told of the service's health.
pub fn check_health(connected: bool, reply: Option<bool>) -> (r: HostEvent)
    ensures
        r == HostEvent::HealthStatus(connected && reply == Some(true)),
{
    HostEvent::HealthStatus(get_health(connected, reply))
}

/// What the host is told at the end of a run: that it is complete, or the
/// error that ended it.
pub fn process_media(result: Result<(), String>) -> (r: HostEvent)
    ensures
        r == match result {
            Ok(_) => HostEvent::DetectComplete,
            Err(e) => HostEvent::DetectError(e),
        },
{
    match result {
        Ok(_) => HostEvent::DetectComplete,
        Err(e) => HostEvent::DetectError(e),
    }
}

} // verus!
