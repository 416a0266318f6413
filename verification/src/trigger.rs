//! The HTTP trigger's answers and settings: what each endpoint replies,
//! where the server binds, and where the rules are pulled from.

use vstd::prelude::*;
use vstd::string::*;
use vstd::utf8::{valid_utf8, decode_utf8};
use crate::decimal::parse_unsigned_spec;
use crate::decimal::parse_unsigned;
use crate::text::{chars_of, lossy_text, lossy_utf8, opt_text, setting_or, setting_or_spec};

verus! {

/// How long one fetch of the rules may take, in seconds.
pub const RULES_FETCH_TIMEOUT_SECS: u64 = 5;

/// The reply of the test endpoint.
pub open spec fn greeting_spec() -> Seq<char> {
    "Hello test"@
}

/// The reply of the fire-and-forget endpoints.
pub open spec fn accepted_spec() -> Seq<char> {
    "ok"@
}

/// The reply when a call could not be routed or got no answer.
pub open spec fn failure_spec() -> Seq<char> {
    "Error"@
}

/// The reply of the test endpoint.
pub fn greeting() -> (s: String)
    ensures
        s@ == greeting_spec(),
{
    String::from_str("Hello test")
}

/// The reply of the fire-and-forget endpoints, whatever became of the
/// message.
pub fn accepted_body() -> (s: String)
    ensures
        s@ == accepted_spec(),
{
    String::from_str("ok")
}

/// The reply of a request-reply endpoint: the answer's bytes as text, with
/// invalid UTF-8 replaced, or `Error` when there was no answer.
pub fn reply_body(answer: Option<Vec<u8>>) -> (s: String)
    ensures
        match answer {
            Some(data) => s@ == lossy_utf8(data@) && (valid_utf8(data@) ==> s@ == decode_utf8(data@)),
            None => s@ == failure_spec(),
        },
{
    match answer {
        Some(data) => lossy_text(data.as_slice()),
        None => String::from_str("Error"),
    }
}

/// The address the HTTP server binds: all interfaces, on `port`.
pub open spec fn bind_address_spec(port: Seq<char>) -> Seq<char> {
    "0.0.0.0:"@ + port
}

/// The address the HTTP server binds.
pub fn bind_address(port: &str) -> (a: String)
    ensures
        a@ == bind_address_spec(port@),
{
    let mut a = String::from_str("0.0.0.0:");
    a.append(port);
    a
}

/// Where the trigger finds the message server and where it listens.
#[derive(Debug, Clone)]
pub struct TriggerSettings {
    pub nats_server: String,
    pub bind_address: String,
}

impl TriggerSettings {
    /// The settings from the build environment's values; the server
    /// defaults to `localhost` and the port to `8081`.
    pub fn resolve(nats_server: Option<String>, port: Option<String>) -> (s: TriggerSettings)
        ensures
            s.nats_server@ == setting_or_spec(opt_text(nats_server), "localhost"@),
            s.bind_address@ == bind_address_spec(setting_or_spec(opt_text(port), "8081"@)),
    {
        let port = setting_or(port, "8081");
        TriggerSettings {
            nats_server: setting_or(nats_server, "localhost"),
            bind_address: bind_address(port.as_str()),
        }
    }
}

/// The address of this trigger's rules on the rules server.
pub open spec fn rules_url_spec(host: Seq<char>, port: Seq<char>, path: Seq<char>, id: Seq<char>) -> Seq<char> {
    "http://"@ + host + ":"@ + port + "/"@ + path + "/"@ + id
}

/// The address of this trigger's rules on the rules server.
pub fn rules_url(host: &str, port: &str, path: &str, id: &str) -> (u: String)
    ensures
        u@ == rules_url_spec(host@, port@, path@, id@),
{
    let mut u = String::from_str("http://");
    u.append(host);
    u.append(":");
    u.append(port);
    u.append("/");
    u.append(path);
    u.append("/");
    u.append(id);
    u
}

/// Why the rule puller's settings were refused.
#[derive(Debug, Clone, Copy, PartialEq, Eq, Structural)]
pub enum SettingsError {
    /// The fetching interval is not a number of milliseconds.
    InvalidInterval,
}

/// Where and how often the trigger pulls its rules.
#[derive(Debug, Clone)]
pub struct PullerSettings {
    pub url: String,
    pub interval_ms: u64,
}

impl PullerSettings {
    /// The settings from the build environment's values, with defaults
    /// host `192.168.150.81`, port `3000`, path `trigger/rules`, interval
    /// `2000` ms and id `basicHttpTrigger`. The interval is read as
    /// `str::parse::<u64>` reads it; it is refused when that fails.
    pub fn resolve(
        host: Option<String>,
        port: Option<String>,
        path: Option<String>,
        interval: Option<String>,
        id: Option<String>,
    ) -> (r: Result<PullerSettings, SettingsError>)
        ensures
            ({
                let interval_text = setting_or_spec(opt_text(interval), "2000"@);
                match r {
                    Ok(s) => parse_unsigned_spec(interval_text, u64::MAX as nat) == Some(s.interval_ms as nat)
                        && s.url@ == rules_url_spec(
                            setting_or_spec(opt_text(host), "192.168.150.81"@),
                            setting_or_spec(opt_text(port), "3000"@),
                            setting_or_spec(opt_text(path), "trigger/rules"@),
                            setting_or_spec(opt_text(id), "basicHttpTrigger"@),
                        ),
                    Err(e) => parse_unsigned_spec(interval_text, u64::MAX as nat) is None
                        && e == SettingsError::InvalidInterval,
                }
            }),
    {
        let host = setting_or(host, "192.168.150.81");
        let port = setting_or(port, "3000");
        let path = setting_or(path, "trigger/rules");
        let interval = setting_or(interval, "2000");
        let id = setting_or(id, "basicHttpTrigger");
        let chars = chars_of(interval.as_str());
        assert(chars@.subrange(0, chars@.len() as int) =~= interval@);
        match parse_unsigned(&chars, 0, chars.len(), u64::MAX) {
            Some(ms) => Ok(PullerSettings {
                url: rules_url(host.as_str(), port.as_str(), path.as_str(), id.as_str()),
                interval_ms: ms,
            }),
            None => Err(SettingsError::InvalidInterval),
        }
    }
}

} // verus!
