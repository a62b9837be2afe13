//! Where the HTTP clients of a download come from.
use vstd::prelude::*;
use std::time::Duration;

verus! {

/// Makes the HTTP client that each task of a download uses.
pub trait ReqwestClientProvider: Send + Sync {
    fn client(&self) -> Result<reqwest::Client, reqwest::Error>;
}

/// How long a connection may take to open, in seconds, for the default client.
pub const DEFAULT_CONNECT_TIMEOUT_SECS: u64 = 20;

/// How long a read may stall, in seconds, for the default client.
pub const DEFAULT_READ_TIMEOUT_SECS: u64 = 8;

/// Builds clients that follow no redirects and time out stalled connections.
#[derive(Clone, Copy)]
pub struct DefaultReqwestClientProvider;

/// What a client is built with: how long opening a connection and a stalled
/// read may take, in seconds.
#[derive(Clone, Copy, Debug, PartialEq, Eq, Structural)]
pub struct ClientSettings {
    pub connect_timeout_secs: u64,
    pub read_timeout_secs: u64,
}

/// Calls `reqwest::redirect::Policy::none`: the policy that follows no
/// redirect and hands the redirect response itself back.
#[verifier::external_body]
fn no_redirects() -> reqwest::redirect::Policy {
    reqwest::redirect::Policy::none()
}

/// Calls `reqwest::Client::builder()`, sets `redirect(redirects)`, sets
/// `connect_timeout` and `read_timeout` from `settings` in seconds, and calls
/// `build`. Whether the build succeeds depends on the system (TLS backend,
/// resolver), so nothing is claimed of the outcome. Every client of a download
/// is built with the default timeouts, and callers must pass exactly those.
#[verifier::external_body]
fn build_client(settings: &ClientSettings, redirects: reqwest::redirect::Policy) -> Result<
    reqwest::Client,
    reqwest::Error,
>
    requires
        settings.connect_timeout_secs == DEFAULT_CONNECT_TIMEOUT_SECS,
        settings.read_timeout_secs == DEFAULT_READ_TIMEOUT_SECS,
{
    reqwest::Client::builder()
        .redirect(redirects)
        .connect_timeout(Duration::from_secs(settings.connect_timeout_secs))
        .read_timeout(Duration::from_secs(settings.read_timeout_secs))
        .build()
}

impl DefaultReqwestClientProvider {
    /// The settings of the default clients: a 20 s connect timeout and an 8 s read timeout.
    pub fn settings(&self) -> (r: ClientSettings)
        ensures
            r == (ClientSettings {
                connect_timeout_secs: DEFAULT_CONNECT_TIMEOUT_SECS,
                read_timeout_secs: DEFAULT_READ_TIMEOUT_SECS,
            }),
    {
        ClientSettings {
            connect_timeout_secs: DEFAULT_CONNECT_TIMEOUT_SECS,
            read_timeout_secs: DEFAULT_READ_TIMEOUT_SECS,
        }
    }
}

impl ReqwestClientProvider for DefaultReqwestClientProvider {
    fn client(&self) -> Result<reqwest::Client, reqwest::Error> {
        build_client(&self.settings(), no_redirects())
    }
}

} // verus!
